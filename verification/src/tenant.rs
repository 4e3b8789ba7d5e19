//! One folder per tenant, and which tenant a caller belongs to.
//!
//! The key is the verified alias from the caller's credential, so it is not something the
//! caller asserts. A tenant writes its policy; the host writes its terms. Without that split
//! an organisation that authors its own policy would be authoring its own quota.

use vstd::prelude::*;
use vstd::string::*;

use crate::budget;
use crate::fleet;
use crate::path;
use crate::policy;
use crate::policy::{GrantsView, Policy};
use crate::proto;
use crate::proto::{FileView, PolicyFile};
use crate::rulebook;
use crate::rulebook::Rulebook;
use crate::table;
use crate::table::Table;
use crate::text;
use crate::upload;

verus! {

pub const DIR: &'static str = "tenants";

pub const FILE: &'static str = "tenant.toml";

// ---------------------------------------------------------------------------
// what the host says of a tenant
// ---------------------------------------------------------------------------

/// What the host says about a tenant. Never written by the tenant.
#[derive(Debug)]
pub struct Terms {
    /// The most machines this tenant may hold at once, whatever its own policy says.
    pub ceiling: u32,
    /// Which caller aliases belong to this tenant. Empty means just the tenant's own name.
    pub members: Vec<String>,
    /// Which of those may change the policy. An admin is also a member.
    pub admins: Vec<String>,
    /// Credits this tenant may spend per window. None means the host has set no budget.
    pub credits: Option<u64>,
    /// The rolling window those credits are counted over, in seconds.
    pub window: Option<u64>,
    /// What this deployment knows about the tenant, and the tenant cannot claim.
    pub facts: Table<String>,
    pub note: Option<String>,
}

#[verifier::ext_equal]
pub struct TermsView {
    pub ceiling: u32,
    pub members: Seq<Seq<char>>,
    pub admins: Seq<Seq<char>>,
    pub credits: Option<u64>,
    pub window: Option<u64>,
    pub facts: Seq<(Seq<char>, Seq<char>)>,
    pub note: Option<Seq<char>>,
}

impl View for Terms {
    type V = TermsView;

    open spec fn view(&self) -> TermsView {
        TermsView {
            ceiling: self.ceiling,
            members: text::texts(self.members@),
            admins: text::texts(self.admins@),
            credits: self.credits,
            window: self.window,
            facts: self.facts@,
            note: fleet::held_text(self.note),
        }
    }
}

impl TermsView {
    /// What holds where the host wrote nothing: a modest ceiling, and nobody to change the
    /// rules.
    pub open spec fn default() -> TermsView {
        TermsView {
            ceiling: 10,
            members: Seq::empty(),
            admins: Seq::empty(),
            credits: None,
            window: None,
            facts: Seq::empty(),
            note: None,
        }
    }

    /// The host's own budget: credits, and the seconds they are counted over.
    pub open spec fn budget(self) -> Option<(u64, u64)> {
        match self.credits {
            Some(credits) => Some(
                (
                    credits,
                    match self.window {
                        Some(window) => window,
                        None => budget::WINDOW_SECS,
                    },
                ),
            ),
            None => None,
        }
    }
}

impl Default for Terms {
    fn default() -> (r: Self)
        ensures
            r@ == TermsView::default(),
    {
        let r = Terms {
            ceiling: 10,
            members: Vec::new(),
            admins: Vec::new(),
            credits: None,
            window: None,
            facts: Table::new(),
            note: None,
        };
        assert(r@ =~= TermsView::default());
        r
    }
}

// ---------------------------------------------------------------------------
// a tenant
// ---------------------------------------------------------------------------

#[derive(Debug)]
pub struct Tenant {
    /// The tenant's own name, which is its folder's. Not necessarily any caller's alias.
    pub alias: String,
    pub terms: Terms,
    pub policy: Policy,
    /// Everything this tenant has written down, ready to send.
    pub rulebook: Rulebook,
}

#[verifier::ext_equal]
pub struct TenantView {
    pub alias: Seq<char>,
    pub terms: TermsView,
    /// Where the tenant's policy stands, what it says, and what that settles.
    pub policy_path: Seq<char>,
    pub policy_text: Seq<char>,
    pub grants: GrantsView,
    pub rulebook: Seq<char>,
}

impl View for Tenant {
    type V = TenantView;

    open spec fn view(&self) -> TenantView {
        TenantView {
            alias: self.alias@,
            terms: self.terms@,
            policy_path: self.policy.path@,
            policy_text: self.policy.text@,
            grants: self.policy.granted(),
            rulebook: self.rulebook@,
        }
    }
}

/// The lower of two budgets, or the one there is.
pub open spec fn lower(host: Option<(u64, u64)>, own: Option<(u64, u64)>) -> Option<(u64, u64)> {
    match (host, own) {
        (Some(h), Some(o)) => if o.0 <= h.0 {
            Some(o)
        } else {
            Some(h)
        },
        (Some(h), None) => Some(h),
        (None, own) => own,
    }
}

/// A list with those of another added that it lacks.
pub open spec fn with_others(base: Seq<Seq<char>>, others: Seq<Seq<char>>) -> Seq<Seq<char>>
    decreases others.len(),
{
    if others.len() == 0 {
        base
    } else {
        let so_far = with_others(base, others.drop_last());
        if so_far.contains(others.last()) {
            so_far
        } else {
            so_far.push(others.last())
        }
    }
}

impl TenantView {
    /// The budget in force: the lower of the host's and the tenant's own.
    pub open spec fn budget(self) -> Option<(u64, u64)> {
        lower(self.terms.budget(), self.grants.budget())
    }

    /// The caller aliases that count as this tenant.
    pub open spec fn members(self) -> Seq<Seq<char>> {
        with_others(
            if self.terms.members.len() == 0 {
                seq![self.alias]
            } else {
                self.terms.members
            },
            self.terms.admins,
        )
    }

    /// May this caller change what this tenant has written down?
    pub open spec fn may_write(self, alias: Seq<char>) -> bool {
        self.terms.admins.contains(alias)
    }
}

impl Tenant {
    /// The budget in force, as credits and window seconds, or nothing where neither the host
    /// nor the tenant set one. A tenant dividing what it has must not be able to enlarge it.
    pub fn budget(&self) -> (r: Option<(u64, u64)>)
        ensures
            r == self@.budget(),
    {
        let host = match self.terms.credits {
            Some(credits) => Some(
                (
                    credits,
                    match self.terms.window {
                        Some(window) => window,
                        None => budget::WINDOW_SECS,
                    },
                ),
            ),
            None => None,
        };
        let own = self.policy.budget();
        match (host, own) {
            (Some(h), Some(o)) => if o.0 <= h.0 {
                Some(o)
            } else {
                Some(h)
            },
            (Some(h), None) => Some(h),
            (None, own) => own,
        }
    }

    /// The caller aliases that count as this tenant.
    pub fn members(&self) -> (r: Vec<String>)
        ensures
            text::texts(r@) == self@.members(),
    {
        let mut all = if self.terms.members.len() == 0 {
            let mut own: Vec<String> = Vec::new();
            own.push(self.alias.clone());
            assert(text::texts(own@) =~= seq![self.alias@]);
            own
        } else {
            text::copied(self.terms.members.as_slice())
        };
        let ghost base = text::texts(all@);
        let ghost admins = text::texts(self.terms.admins@);
        assert(admins.take(0) =~= Seq::<Seq<char>>::empty());
        for i in 0..self.terms.admins.len()
            invariant
                admins == text::texts(self.terms.admins@),
                text::texts(all@) == with_others(base, admins.take(i as int)),
        {
            assert(admins.take(i as int + 1).drop_last() =~= admins.take(i as int));
            assert(admins.take(i as int + 1).last() == self.terms.admins@[i as int]@);
            if !text::listed(all.as_slice(), self.terms.admins[i].as_str()) {
                let ghost before = all@;
                all.push(self.terms.admins[i].clone());
                assert(text::texts(all@) =~= text::texts(before).push(
                    self.terms.admins@[i as int]@,
                ));
            }
        }
        assert(admins.take(admins.len() as int) =~= admins);
        all
    }

    /// May this caller change what this tenant has written down? Nobody, unless the host said
    /// so: an empty list is not "everyone".
    pub fn may_write(&self, alias: &str) -> (r: bool)
        ensures
            r == self@.may_write(alias@),
    {
        text::listed(self.terms.admins.as_slice(), alias)
    }

    /// What this deployment will attest about them.
    pub fn facts(&self) -> (r: Table<String>)
        ensures
            r@ == self@.terms.facts,
    {
        self.terms.facts.copied()
    }

    /// For a refusal that tells somebody whom to ask.
    pub fn admins(&self) -> (r: Vec<String>)
        ensures
            text::texts(r@) == self@.terms.admins,
    {
        text::copied(self.terms.admins.as_slice())
    }

    /// The host's hard cap on this tenant, whatever its own policy says.
    pub fn ceiling(&self) -> (r: u32)
        ensures
            r == self@.terms.ceiling,
    {
        self.terms.ceiling
    }
}

/// Does this result say what a tenant's folder comes to? A policy that does not parse, or a
/// folder too big to be weighed, is not read at all.
pub open spec fn reads(
    result: Result<Tenant, String>,
    alias: Seq<char>,
    terms: Option<TermsView>,
    policy_path: Seq<char>,
    policy_text: Seq<char>,
    files: Seq<FileView>,
) -> bool {
    match policy::grants_of(policy_text) {
        Err(inner) => {
            &&& result matches Err(why)
            &&& why@ == "reading the grants block in "@ + policy_path + ": "@ + inner
        },
        Ok(grants) => {
            let rows = rulebook::rows(files);
            if rulebook::bytes(rows) > rulebook::MOST_BYTES {
                &&& result matches Err(why)
                &&& why@ == rulebook::too_big(
                    fleet::at_most(rulebook::bytes(rows), u64::MAX as nat),
                )
            } else {
                &&& result matches Ok(tenant)
                &&& tenant@ == (TenantView {
                    alias,
                    terms: match terms {
                        Some(terms) => terms,
                        None => TermsView::default(),
                    },
                    policy_path,
                    policy_text,
                    grants,
                    rulebook: rulebook::rendering(rows),
                })
            }
        },
    }
}

/// A tenant, as its folder holds it. A folder without terms gets the default ceiling: missing
/// host configuration must never mean "no limit".
pub fn read(
    alias: &str,
    terms: Option<Terms>,
    policy_path: String,
    policy_text: String,
    files: &[PolicyFile],
) -> (r: Result<Tenant, String>)
    ensures
        reads(
            r,
            alias@,
            match terms {
                Some(terms) => Some(terms@),
                None => None,
            },
            policy_path@,
            policy_text@,
            proto::files(files@),
        ),
{
    let policy = match Policy::from_text(policy_path, policy_text) {
        Ok(policy) => policy,
        Err(why) => return Err(why),
    };
    let rulebook = match Rulebook::from_files(files) {
        Ok(rulebook) => rulebook,
        Err(why) => return Err(why),
    };
    let terms = match terms {
        Some(terms) => terms,
        None => Terms::default(),
    };
    Ok(Tenant { alias: alias.to_owned(), terms, policy, rulebook })
}

// ---------------------------------------------------------------------------
// whose caller is this
// ---------------------------------------------------------------------------

pub open spec fn both_claim(
    one: Seq<char>,
    other: Seq<char>,
    caller: Seq<char>,
) -> Seq<char> {
    "both "@ + text::quoted_of(one) + " and "@ + text::quoted_of(other) + " claim the caller "@
        + text::quoted_of(caller) + " — whose budget would that spend?"@
}

/// The callers known so far and those of one tenant more, or who claims a caller twice.
pub open spec fn claimed(
    known: Map<Seq<char>, Seq<char>>,
    alias: Seq<char>,
    members: Seq<Seq<char>>,
) -> Result<Map<Seq<char>, Seq<char>>, Seq<char>>
    decreases members.len(),
{
    if members.len() == 0 {
        Ok(known)
    } else {
        match claimed(known, alias, members.drop_last()) {
            Err(why) => Err(why),
            Ok(so_far) => if so_far.dom().contains(members.last()) {
                Err(both_claim(so_far[members.last()], alias, members.last()))
            } else {
                Ok(so_far.insert(members.last(), alias))
            },
        }
    }
}

/// Which tenant each caller belongs to, refusing ambiguity: picking a winner would put
/// somebody's spend on somebody else's budget, and nobody would know which.
pub open spec fn index_of(rows: Seq<(Seq<char>, TenantView)>) -> Result<
    Map<Seq<char>, Seq<char>>,
    Seq<char>,
>
    decreases rows.len(),
{
    if rows.len() == 0 {
        Ok(Map::empty())
    } else {
        match index_of(rows.drop_last()) {
            Err(why) => Err(why),
            Ok(known) => claimed(known, rows.last().1.alias, rows.last().1.members()),
        }
    }
}

proof fn lemma_claimed_refused(
    known: Map<Seq<char>, Seq<char>>,
    alias: Seq<char>,
    members: Seq<Seq<char>>,
    i: int,
)
    requires
        0 <= i <= members.len(),
        claimed(known, alias, members.take(i)) is Err,
    ensures
        claimed(known, alias, members) == claimed(known, alias, members.take(i)),
    decreases members.len() - i,
{
    if i < members.len() {
        assert(members.take(i + 1).drop_last() =~= members.take(i));
        lemma_claimed_refused(known, alias, members, i + 1);
    } else {
        assert(members.take(i) =~= members);
    }
}

proof fn lemma_index_refused(rows: Seq<(Seq<char>, TenantView)>, i: int)
    requires
        0 <= i <= rows.len(),
        index_of(rows.take(i)) is Err,
    ensures
        index_of(rows) == index_of(rows.take(i)),
    decreases rows.len() - i,
{
    if i < rows.len() {
        assert(rows.take(i + 1).drop_last() =~= rows.take(i));
        lemma_index_refused(rows, i + 1);
    } else {
        assert(rows.take(i) =~= rows);
    }
}

/// Adds the callers of one tenant.
fn claim(known: &mut Table<String>, tenant: &Tenant) -> (r: Result<(), String>)
    ensures
        match r {
            Ok(_) => claimed(old(known).dict(), tenant@.alias, tenant@.members()) == Ok::<
                Map<Seq<char>, Seq<char>>,
                Seq<char>,
            >(final(known).dict()),
            Err(why) => claimed(old(known).dict(), tenant@.alias, tenant@.members()) == Err::<
                Map<Seq<char>, Seq<char>>,
                Seq<char>,
            >(why@),
        },
{
    let members = tenant.members();
    let ghost all = text::texts(members@);
    let ghost before = known.dict();
    assert(all.take(0) =~= Seq::<Seq<char>>::empty());
    for i in 0..members.len()
        invariant
            all == text::texts(members@),
            all == tenant@.members(),
            before == old(known).dict(),
            claimed(before, tenant@.alias, all.take(i as int)) == Ok::<
                Map<Seq<char>, Seq<char>>,
                Seq<char>,
            >(known.dict()),
    {
        assert(all.take(i as int + 1).drop_last() =~= all.take(i as int));
        assert(all.take(i as int + 1).last() == members@[i as int]@);
        if let Some(other) = known.get(members[i].as_str()) {
            let mut why = String::from_str("both ");
            why.append(text::quoted(other.as_str()).as_str());
            why.append(" and ");
            why.append(text::quoted(tenant.alias.as_str()).as_str());
            why.append(" claim the caller ");
            why.append(text::quoted(members[i].as_str()).as_str());
            why.append(" — whose budget would that spend?");
            proof {
                lemma_claimed_refused(before, tenant@.alias, all, i as int + 1);
            }
            return Err(why);
        }
        known.insert(members[i].clone(), tenant.alias.clone());
    }
    assert(all.take(all.len() as int) =~= all);
    Ok(())
}

/// Which tenant each caller belongs to.
fn index(loaded: &Table<Tenant>) -> (r: Result<Table<String>, String>)
    ensures
        loaded.dict().dom().finite(),
        match r {
            Ok(by_member) => index_of(table::row_of(loaded.dict())) == Ok::<
                Map<Seq<char>, Seq<char>>,
                Seq<char>,
            >(by_member.dict()),
            Err(why) => index_of(table::row_of(loaded.dict())) == Err::<
                Map<Seq<char>, Seq<char>>,
                Seq<char>,
            >(why@),
        },
{
    let mut by_member: Table<String> = Table::new();
    let ghost rows = loaded@;
    let size: usize = loaded.len();
    assert(rows.take(0) =~= Seq::<(Seq<char>, TenantView)>::empty());
    for i in 0..size
        invariant
            size == loaded@.len(),
            rows == loaded@,
            rows == table::row_of(loaded.dict()),
            loaded.dict().dom().finite(),
            index_of(rows.take(i as int)) == Ok::<Map<Seq<char>, Seq<char>>, Seq<char>>(
                by_member.dict(),
            ),
    {
        assert(rows.take(i as int + 1).drop_last() =~= rows.take(i as int));
        let tenant = loaded.value_at(i);
        assert(rows.take(i as int + 1).last().1 == tenant@);
        if let Err(why) = claim(&mut by_member, tenant) {
            proof {
                lemma_index_refused(rows, i as int + 1);
            }
            return Err(why);
        }
    }
    assert(rows.take(size as int) =~= rows);
    Ok(by_member)
}

// ---------------------------------------------------------------------------
// every tenant of one controller
// ---------------------------------------------------------------------------

/// One folder under the tenants' own, and what reading it gave.
pub struct Found {
    pub name: String,
    pub read: Result<Tenant, String>,
}

#[verifier::ext_equal]
pub struct FoundView {
    pub name: Seq<char>,
    pub read: Result<TenantView, Seq<char>>,
}

impl View for Found {
    type V = FoundView;

    open spec fn view(&self) -> FoundView {
        FoundView {
            name: self.name@,
            read: match self.read {
                Ok(tenant) => Ok(tenant@),
                Err(why) => Err(why@),
            },
        }
    }
}

pub open spec fn found(list: Seq<Found>) -> Seq<FoundView> {
    list.map_values(|f: Found| f@)
}

/// The tenants whose folders read, by name.
pub open spec fn readable(list: Seq<FoundView>) -> Map<Seq<char>, TenantView>
    decreases list.len(),
{
    if list.len() == 0 {
        Map::empty()
    } else {
        match list.last().read {
            Ok(tenant) => readable(list.drop_last()).insert(tenant.alias, tenant),
            Err(_) => readable(list.drop_last()),
        }
    }
}

/// The tenants whose folders do not read, and why.
pub open spec fn unreadable(list: Seq<FoundView>) -> Map<Seq<char>, Seq<char>>
    decreases list.len(),
{
    if list.len() == 0 {
        Map::empty()
    } else {
        match list.last().read {
            Ok(_) => unreadable(list.drop_last()),
            Err(why) => unreadable(list.drop_last()).insert(list.last().name, why),
        }
    }
}

/// Every tenant this controller serves.
pub struct Tenants {
    /// Tenants whose files would not read, and why. Their last good copy is still in force,
    /// which is why this has to be visible somewhere.
    pub unread: Table<String>,
    pub dir: String,
    pub loaded: Table<Tenant>,
    /// Caller alias to tenant name. Several aliases may point at one tenant, which is what
    /// lets a tenant be a team.
    pub by_member: Table<String>,
}

#[verifier::ext_equal]
pub struct TenantsView {
    pub unread: Map<Seq<char>, Seq<char>>,
    pub dir: Seq<char>,
    pub loaded: Map<Seq<char>, TenantView>,
    pub by_member: Map<Seq<char>, Seq<char>>,
}

impl View for Tenants {
    type V = TenantsView;

    open spec fn view(&self) -> TenantsView {
        TenantsView {
            unread: self.unread.dict(),
            dir: self.dir@,
            loaded: self.loaded.dict(),
            by_member: self.by_member.dict(),
        }
    }
}

/// Is every tenant kept under its own name?
pub open spec fn named(loaded: Map<Seq<char>, TenantView>) -> bool {
    forall|name: Seq<char>| #[trigger]
        loaded.dom().contains(name) ==> loaded[name].alias == name
}

impl TenantsView {
    /// Every tenant is kept under its own name, and every caller points at a tenant there is.
    pub open spec fn wf(self) -> bool {
        &&& named(self.loaded)
        &&& forall|caller: Seq<char>| #[trigger]
            self.by_member.dom().contains(caller) ==> self.loaded.dom().contains(
                self.by_member[caller],
            )
    }

    /// The tenant a caller belongs to.
    pub open spec fn of_caller(self, caller: Seq<char>) -> Option<TenantView> {
        if self.by_member.dom().contains(caller) {
            Some(self.loaded[self.by_member[caller]])
        } else {
            None
        }
    }

    /// What is known once one tenant's folder has been read again.
    ///
    /// A folder that does not read leaves the last good copy in force and is remembered: a
    /// typo should not take a team offline, and an edit that did not apply must not be
    /// invisible. One that reads is in force, and nothing is remembered against it.
    pub open spec fn refreshed(self, name: Seq<char>, fresh: Result<TenantView, Seq<char>>) -> Self {
        match fresh {
            Ok(tenant) => {
                let loaded = self.loaded.insert(tenant.alias, tenant);
                TenantsView {
                    loaded,
                    by_member: match index_of(table::row_of(loaded)) {
                        Ok(by_member) => by_member,
                        Err(_) => self.by_member,
                    },
                    unread: self.unread.remove(name),
                    ..self
                }
            },
            Err(why) => TenantsView { unread: self.unread.insert(name, why), ..self },
        }
    }

    /// What is known once every folder has been read again, and whether it went well.
    ///
    /// Merged rather than replaced: a tenant whose folder no longer reads keeps serving on its
    /// last good copy.
    pub open spec fn rescanned(self, list: Seq<FoundView>) -> (Self, Option<Seq<char>>) {
        match index_of(table::row_of(readable(list))) {
            Err(why) => (self, Some(why)),
            Ok(_) => {
                let loaded = self.loaded.union_prefer_right(readable(list));
                match index_of(table::row_of(loaded)) {
                    Err(why) => (
                        TenantsView { loaded, unread: unreadable(list), ..self },
                        Some(why),
                    ),
                    Ok(by_member) => (
                        TenantsView { loaded, unread: unreadable(list), by_member, ..self },
                        None,
                    ),
                }
            },
        }
    }
}

/// Every caller of an index belongs to a tenant of the list.
proof fn lemma_claimed(
    known: Map<Seq<char>, Seq<char>>,
    alias: Seq<char>,
    members: Seq<Seq<char>>,
    by_member: Map<Seq<char>, Seq<char>>,
)
    requires
        claimed(known, alias, members) == Ok::<Map<Seq<char>, Seq<char>>, Seq<char>>(by_member),
    ensures
        forall|caller: Seq<char>| #[trigger]
            by_member.dom().contains(caller) == (known.dom().contains(caller) || members.contains(
                caller,
            )),
        forall|caller: Seq<char>|
            known.dom().contains(caller) ==> #[trigger] by_member[caller] == known[caller],
        forall|caller: Seq<char>| #[trigger]
            known.dom().contains(caller) ==> !members.contains(caller),
        forall|caller: Seq<char>|
            members.contains(caller) ==> #[trigger] by_member[caller] == alias,
        members.no_duplicates(),
    decreases members.len(),
{
    if members.len() > 0 {
        let less = members.drop_last();
        let last = members.last();
        let so_far = claimed(known, alias, less)->Ok_0;
        lemma_claimed(known, alias, less, so_far);
        assert(!so_far.dom().contains(last));
        assert(less.push(last) =~= members);
        assert forall|caller: Seq<char>| members.contains(caller) == (less.contains(caller)
            || caller == last) by {
            if less.contains(caller) {
                let i = less.index_of(caller);
                assert(members[i] == caller);
            }
            if caller == last {
                assert(members[members.len() - 1] == caller);
            }
            if members.contains(caller) {
                let i = members.index_of(caller);
                if i < less.len() {
                    assert(less[i] == caller);
                }
            }
        }
        assert forall|caller: Seq<char>| known.dom().contains(caller) implies #[trigger]
            by_member[caller] == known[caller] by {
            assert(so_far.dom().contains(caller));
            assert(so_far[caller] == known[caller]);
        }
        assert forall|caller: Seq<char>| #[trigger]
            known.dom().contains(caller) implies !members.contains(caller) by {
            assert(so_far.dom().contains(caller));
        }
        assert forall|caller: Seq<char>| members.contains(caller) implies #[trigger]
            by_member[caller] == alias by {
            if caller != last {
                assert(so_far[caller] == alias);
            }
        }
    } else {
        assert(forall|caller: Seq<char>| !members.contains(caller));
    }
}

/// What an index says: every tenant's members, and nobody else, each under the tenant that
/// claims it.
pub proof fn lemma_index(
    rows: Seq<(Seq<char>, TenantView)>,
    by_member: Map<Seq<char>, Seq<char>>,
)
    requires
        index_of(rows) == Ok::<Map<Seq<char>, Seq<char>>, Seq<char>>(by_member),
    ensures
        forall|i: int, caller: Seq<char>|
            0 <= i < rows.len() && #[trigger] rows[i].1.members().contains(caller) ==> {
                &&& by_member.dom().contains(caller)
                &&& by_member[caller] == rows[i].1.alias
            },
        forall|caller: Seq<char>| #[trigger]
            by_member.dom().contains(caller) ==> exists|i: int|
                {
                    &&& 0 <= i < rows.len()
                    &&& #[trigger] rows[i].1.members().contains(caller)
                    &&& by_member[caller] == rows[i].1.alias
                },
    decreases rows.len(),
{
    if rows.len() > 0 {
        let less = rows.drop_last();
        let known = index_of(less)->Ok_0;
        lemma_index(less, known);
        let last = rows.last().1;
        lemma_claimed(known, last.alias, last.members(), by_member);
        assert forall|i: int, caller: Seq<char>|
            0 <= i < rows.len() && #[trigger] rows[i].1.members().contains(caller) implies {
            &&& by_member.dom().contains(caller)
            &&& by_member[caller] == rows[i].1.alias
        } by {
            if i < less.len() {
                assert(less[i].1.members().contains(caller));
            }
        }
        assert forall|caller: Seq<char>| #[trigger] by_member.dom().contains(caller) implies exists|
            i: int,
        |
            {
                &&& 0 <= i < rows.len()
                &&& #[trigger] rows[i].1.members().contains(caller)
                &&& by_member[caller] == rows[i].1.alias
            } by {
            if known.dom().contains(caller) {
                let i = choose|i: int|
                    {
                        &&& 0 <= i < less.len()
                        &&& #[trigger] less[i].1.members().contains(caller)
                        &&& known[caller] == less[i].1.alias
                    };
                assert(rows[i].1.members().contains(caller));
            } else {
                assert(rows[rows.len() - 1].1.members().contains(caller));
            }
        }
    }
}

proof fn lemma_readable_named(list: Seq<FoundView>)
    ensures
        named(readable(list)),
        readable(list).dom().finite(),
    decreases list.len(),
{
    if list.len() > 0 {
        lemma_readable_named(list.drop_last());
    }
}

/// Parts what was found into the tenants that read and the reasons of those that do not.
fn sort_out(list: Vec<Found>) -> (r: (Table<Tenant>, Table<String>))
    ensures
        r.0.dict() == readable(found(list@)),
        r.1.dict() == unreadable(found(list@)),
        named(r.0.dict()),
{
    let ghost all = found(list@);
    let mut loaded: Table<Tenant> = Table::new();
    let mut unread: Table<String> = Table::new();
    let mut rest = list;
    let mut i: usize = 0;
    let size: usize = rest.len();
    assert(all.skip(0) =~= all);
    assert(all.take(0) =~= Seq::<FoundView>::empty());
    while rest.len() > 0
        invariant
            i + rest@.len() == size,
            size == all.len(),
            all.skip(i as int) == found(rest@),
            loaded.dict() == readable(all.take(i as int)),
            unread.dict() == unreadable(all.take(i as int)),
        decreases rest@.len(),
    {
        let ghost before = found(rest@);
        let one = rest.remove(0);
        assert(before[0] == one@);
        assert(found(rest@) =~= before.drop_first());
        assert(before.drop_first() =~= all.skip(i as int + 1));
        assert(all[i as int] == all.skip(i as int)[0]);
        assert(all.take(i as int + 1).drop_last() =~= all.take(i as int));
        assert(all.take(i as int + 1).last() == one@);
        match one.read {
            Ok(tenant) => loaded.insert(tenant.alias.clone(), tenant),
            Err(why) => unread.insert(one.name, why),
        }
        i = i + 1;
    }
    assert(all.take(i as int) =~= all);
    proof {
        lemma_readable_named(all);
    }
    (loaded, unread)
}

/// Where an index comes from tenants that are kept under their own names, every caller points
/// at one of them.
proof fn lemma_index_names(loaded: Map<Seq<char>, TenantView>, by_member: Map<Seq<char>, Seq<char>>)
    requires
        loaded.dom().finite(),
        named(loaded),
        index_of(table::row_of(loaded)) == Ok::<Map<Seq<char>, Seq<char>>, Seq<char>>(by_member),
    ensures
        forall|caller: Seq<char>| #[trigger]
            by_member.dom().contains(caller) ==> loaded.dom().contains(by_member[caller]),
{
    let rows = table::row_of(loaded);
    table::lemma_row_of(loaded);
    lemma_index(rows, by_member);
    assert forall|caller: Seq<char>| #[trigger] by_member.dom().contains(caller) implies loaded
        .dom().contains(by_member[caller]) by {
        let i = choose|i: int|
            {
                &&& 0 <= i < rows.len()
                &&& #[trigger] rows[i].1.members().contains(caller)
                &&& by_member[caller] == rows[i].1.alias
            };
        table::lemma_entry(rows, i);
        assert(loaded.dom().contains(rows[i].0));
    }
}

pub open spec fn bad_name(alias: Seq<char>) -> Seq<char> {
    text::quoted_of(alias) + " should be lowercase letters, digits, - and _"@
}

/// Where a new tenant's folder goes, or why there is to be none.
pub open spec fn folder_for(root: Seq<char>, alias: Seq<char>, exists: bool) -> Result<
    Seq<char>,
    Seq<char>,
> {
    let dir = path::join_of(path::join_of(root, DIR@), alias);
    if !plain(alias) {
        Err(bad_name(alias))
    } else if exists {
        Err(dir + " already exists"@)
    } else {
        Ok(dir)
    }
}

/// A name that will not surprise a filesystem.
pub open spec fn plain(alias: Seq<char>) -> bool {
    forall|i: int| 0 <= i < alias.len() ==> plain_char(#[trigger] alias[i])
}

pub open spec fn plain_char(c: char) -> bool {
    'a' <= c <= 'z' || '0' <= c <= '9' || c == '-' || c == '_'
}

impl Tenants {
    pub fn dir_in(root: &str) -> (r: String)
        ensures
            r@ == path::join_of(root@, DIR@),
    {
        path::join(root, DIR)
    }

    /// Every tenant that was found under a root. One tenant's typo does not stop the others;
    /// it does stop that tenant, as falling back to default terms would put a ceiling and a
    /// budget in force that nobody chose.
    pub fn load(root: &str, list: Vec<Found>) -> (r: Result<Self, String>)
        ensures
            match r {
                Ok(tenants) => {
                    &&& tenants@.wf()
                    &&& tenants@.dir == path::join_of(root@, DIR@)
                    &&& tenants@.loaded == readable(found(list@))
                    &&& tenants@.unread == unreadable(found(list@))
                    &&& index_of(table::row_of(readable(found(list@)))) == Ok::<
                        Map<Seq<char>, Seq<char>>,
                        Seq<char>,
                    >(tenants@.by_member)
                },
                Err(why) => index_of(table::row_of(readable(found(list@)))) == Err::<
                    Map<Seq<char>, Seq<char>>,
                    Seq<char>,
                >(why@),
            },
    {
        let (loaded, unread) = sort_out(list);
        match index(&loaded) {
            Err(why) => Err(why),
            Ok(by_member) => {
                proof {
                    lemma_index_names(loaded.dict(), by_member.dict());
                }
                Ok(Tenants { unread, dir: Self::dir_in(root), loaded, by_member })
            },
        }
    }

    /// Tenant names, which are the folders'. Not caller aliases.
    pub fn names(&self) -> (r: Vec<String>)
        ensures
            text::texts(r@) == self.loaded@.map_values(|e: (Seq<char>, TenantView)| e.0),
    {
        let mut all: Vec<String> = Vec::new();
        let size: usize = self.loaded.len();
        for i in 0..size
            invariant
                size == self.loaded@.len(),
                all@.len() == i,
                forall|k: int| 0 <= k < i ==> (#[trigger] all@[k])@ == self.loaded@[k].0,
        {
            all.push(self.loaded.key_at(i).clone());
        }
        assert(text::texts(all@) =~= self.loaded@.map_values(|e: (Seq<char>, TenantView)| e.0));
        all
    }

    /// Every tenant, by name.
    pub fn all(&self) -> (r: Vec<&Tenant>)
        ensures
            r@.len() == self.loaded@.len(),
            forall|i: int| 0 <= i < r@.len() ==> (#[trigger] r@[i])@ == self.loaded@[i].1,
    {
        let mut all: Vec<&Tenant> = Vec::new();
        let size: usize = self.loaded.len();
        for i in 0..size
            invariant
                size == self.loaded@.len(),
                all@.len() == i,
                forall|k: int| 0 <= k < i ==> (#[trigger] all@[k])@ == self.loaded@[k].1,
        {
            all.push(self.loaded.value_at(i));
        }
        all
    }

    /// A tenant by its own name, for administration. A tenant's name need not be any caller's
    /// alias.
    pub fn by_name(&self, name: &str) -> (r: Option<&Tenant>)
        ensures
            match r {
                Some(tenant) => self@.loaded.dom().contains(name@) && tenant@
                    == self@.loaded[name@],
                None => !self@.loaded.dom().contains(name@),
            },
    {
        self.loaded.get(name)
    }

    pub fn len(&self) -> (r: usize)
        ensures
            r == self.loaded@.len(),
            r == self@.loaded.dom().len(),
    {
        let r = self.loaded.len();
        proof {
            table::lemma_keys_finite(self.loaded@);
            assert(self.loaded.dict().dom() =~= table::keys_of(self.loaded@));
        }
        r
    }

    pub fn is_empty(&self) -> (r: bool)
        ensures
            r == (self.loaded@.len() == 0),
    {
        self.loaded.is_empty()
    }

    /// Which tenant's folder has to be read again before a caller is answered, or nothing for
    /// a caller nobody claims.
    pub fn name_for(&self, caller: &str) -> (r: Option<&String>)
        ensures
            match r {
                Some(name) => self@.by_member.dom().contains(caller@) && name@
                    == self@.by_member[caller@],
                None => !self@.by_member.dom().contains(caller@),
            },
    {
        self.by_member.get(caller)
    }

    /// The tenant this caller alias belongs to.
    pub fn for_caller(&self, caller: &str) -> (r: Option<&Tenant>)
        requires
            self@.wf(),
        ensures
            match r {
                Some(tenant) => self@.of_caller(caller@) == Some(tenant@),
                None => self@.of_caller(caller@) is None,
            },
    {
        match self.by_member.get(caller) {
            Some(name) => self.loaded.get(name.as_str()),
            None => None,
        }
    }

    /// Takes in what reading one tenant's folder again gave.
    pub fn refresh(&mut self, name: &str, fresh: Result<Tenant, String>)
        requires
            old(self)@.wf(),
        ensures
            final(self)@.wf(),
            final(self)@ == old(self)@.refreshed(
                name@,
                match fresh {
                    Ok(tenant) => Ok(tenant@),
                    Err(why) => Err(why@),
                },
            ),
    {
        match fresh {
            Ok(tenant) => {
                let ghost before = self@;
                self.loaded.insert(tenant.alias.clone(), tenant);
                assert(self@.loaded == before.loaded.insert(tenant@.alias, tenant@));
                let _ = self.unread.remove(name);
                assert(self@.wf());
                if let Ok(by_member) = index(&self.loaded) {
                    proof {
                        lemma_index_names(self.loaded.dict(), by_member.dict());
                    }
                    self.by_member = by_member;
                }
            },
            Err(why) => {
                let ghost before = self@;
                self.unread.insert(name.to_owned(), why);
                assert(self@.loaded == before.loaded);
                assert(self@.by_member == before.by_member);
            },
        }
    }

    /// Edits that did not take: tenant name, and why its files would not read.
    pub fn unread(&self) -> (r: Vec<(String, String)>)
        ensures
            r@.len() == self.unread@.len(),
            forall|i: int|
                0 <= i < r@.len() ==> ((#[trigger] r@[i]).0@, r@[i].1@) == self.unread@[i],
    {
        let mut all: Vec<(String, String)> = Vec::new();
        let size: usize = self.unread.len();
        for i in 0..size
            invariant
                size == self.unread@.len(),
                all@.len() == i,
                forall|k: int|
                    0 <= k < i ==> ((#[trigger] all@[k]).0@, all@[k].1@) == self.unread@[k],
        {
            all.push((self.unread.key_at(i).clone(), self.unread.value_at(i).clone()));
        }
        all
    }

    /// Takes in what reading every folder again gave.
    ///
    /// The error is handed back rather than only logged, because one caller is a plea that
    /// merely hoped for a new tenant and the other has just replaced a policy.
    pub fn rescan(&mut self, list: Vec<Found>) -> (r: Result<(), String>)
        requires
            old(self)@.wf(),
        ensures
            final(self)@.wf(),
            final(self)@ == old(self)@.rescanned(found(list@)).0,
            match r {
                Ok(_) => old(self)@.rescanned(found(list@)).1 is None,
                Err(why) => old(self)@.rescanned(found(list@)).1 == Some(why@),
            },
    {
        let (mut fresh, unread) = sort_out(list);
        let ghost readable = fresh.dict();
        let ghost before = self.loaded.dict();
        if let Err(why) = index(&fresh) {
            return Err(why);
        }
        while !fresh.is_empty()
            invariant
                self.loaded.dict() == before.union_prefer_right(
                    readable.remove_keys(fresh.dict().dom()),
                ),
                forall|name: Seq<char>| #[trigger]
                    fresh.dict().dom().contains(name) ==> readable.dom().contains(name)
                        && fresh.dict()[name] == readable[name],
                self.unread == old(self).unread,
                self.dir == old(self).dir,
                self.by_member == old(self).by_member,
            decreases fresh@.len(),
        {
            let size: usize = fresh.len();
            let name = fresh.key_at(0).clone();
            let ghost left = fresh.dict();
            proof {
                table::lemma_entry(fresh@, 0);
                table::lemma_keys_finite(fresh@);
                assert(left.dom() =~= table::keys_of(fresh@));
            }
            if let Some(tenant) = fresh.remove(name.as_str()) {
                proof {
                    table::lemma_keys_finite(fresh@);
                    assert(fresh.dict().dom() =~= table::keys_of(fresh@));
                    assert(fresh@.len() < size);
                }
                self.loaded.insert(name, tenant);
                assert(self.loaded.dict() =~= before.union_prefer_right(
                    readable.remove_keys(fresh.dict().dom()),
                ));
            }
        }
        assert(readable.remove_keys(fresh.dict().dom()) =~= readable) by {
            assert(fresh.dict().dom() =~= Set::<Seq<char>>::empty());
        }
        self.unread = unread;
        match index(&self.loaded) {
            Err(why) => Err(why),
            Ok(by_member) => {
                proof {
                    lemma_index_names(self.loaded.dict(), by_member.dict());
                }
                self.by_member = by_member;
                Ok(())
            },
        }
    }

    /// Where a new tenant's folder goes. Refused where the name would surprise a filesystem,
    /// and where the folder is there already: it holds somebody's rules.
    pub fn add(root: &str, alias: &str, exists: bool) -> (r: Result<String, String>)
        ensures
            match r {
                Ok(at) => folder_for(root@, alias@, exists) == Ok::<Seq<char>, Seq<char>>(at@),
                Err(why) => folder_for(root@, alias@, exists) == Err::<Seq<char>, Seq<char>>(why@),
            },
    {
        let chars = text::chars_of(alias);
        for i in 0..chars.len()
            invariant
                chars@ == alias@,
                forall|k: int| 0 <= k < i ==> plain_char(#[trigger] alias@[k]),
        {
            let c = chars[i];
            if !('a' <= c && c <= 'z' || '0' <= c && c <= '9' || c == '-' || c == '_') {
                let mut why = text::quoted(alias);
                why.append(" should be lowercase letters, digits, - and _");
                assert(!plain_char(alias@[i as int]));
                return Err(why);
            }
        }
        let mut dir = path::join(Self::dir_in(root).as_str(), alias);
        if exists {
            dir.append(" already exists");
            return Err(dir);
        }
        Ok(dir)
    }
}

// ---------------------------------------------------------------------------
// laws
// ---------------------------------------------------------------------------

/// No caller belongs to two tenants.
pub proof fn law_two_tenants_cannot_claim_one_caller(
    rows: Seq<(Seq<char>, TenantView)>,
    i: int,
    j: int,
    caller: Seq<char>,
)
    requires
        index_of(rows) is Ok,
        0 <= i < rows.len(),
        0 <= j < rows.len(),
        rows[i].1.members().contains(caller),
        rows[j].1.members().contains(caller),
    ensures
        rows[i].1.alias == rows[j].1.alias,
{
    lemma_index(rows, index_of(rows)->Ok_0);
}

proof fn lemma_claims_fit(
    known: Map<Seq<char>, Seq<char>>,
    alias: Seq<char>,
    members: Seq<Seq<char>>,
)
    requires
        members.no_duplicates(),
        forall|k: int| 0 <= k < members.len() ==> !known.dom().contains(#[trigger] members[k]),
    ensures
        claimed(known, alias, members) is Ok,
    decreases members.len(),
{
    if members.len() > 0 {
        let less = members.drop_last();
        assert forall|k: int| 0 <= k < less.len() implies !known.dom().contains(
            #[trigger] less[k],
        ) by {
            assert(less[k] == members[k]);
        }
        lemma_claims_fit(known, alias, less);
        let so_far = claimed(known, alias, less)->Ok_0;
        lemma_claimed(known, alias, less, so_far);
        let last = members[members.len() - 1];
        if less.contains(last) {
            let k = less.index_of(last);
            assert(members[k] == members[members.len() - 1]);
        }
    }
}

/// Tenants are refused only where a caller is claimed twice.
pub proof fn law_tenants_that_share_no_caller_are_served(rows: Seq<(Seq<char>, TenantView)>)
    requires
        forall|i: int| 0 <= i < rows.len() ==> (#[trigger] rows[i]).1.members().no_duplicates(),
        forall|i: int, j: int, caller: Seq<char>|
            0 <= i < j < rows.len() && #[trigger] rows[i].1.members().contains(caller)
                ==> !#[trigger] rows[j].1.members().contains(caller),
    ensures
        index_of(rows) is Ok,
    decreases rows.len(),
{
    if rows.len() > 0 {
        let less = rows.drop_last();
        assert forall|i: int, j: int, caller: Seq<char>|
            0 <= i < j < less.len() && #[trigger] less[i].1.members().contains(
                caller,
            ) implies !#[trigger] less[j].1.members().contains(caller) by {
            assert(rows[i].1.members().contains(caller));
            assert(rows[j] == less[j]);
        }
        assert forall|i: int| 0 <= i < less.len() implies (
        #[trigger] less[i]).1.members().no_duplicates() by {
            assert(rows[i] == less[i]);
        }
        law_tenants_that_share_no_caller_are_served(less);
        let known = index_of(less)->Ok_0;
        lemma_index(less, known);
        let last = rows[rows.len() - 1].1;
        let members = last.members();
        assert forall|k: int| 0 <= k < members.len() implies !known.dom().contains(
            #[trigger] members[k],
        ) by {
            assert(members.contains(members[k]));
            if known.dom().contains(members[k]) {
                let i = choose|i: int|
                    {
                        &&& 0 <= i < less.len()
                        &&& #[trigger] less[i].1.members().contains(members[k])
                        &&& known[members[k]] == less[i].1.alias
                    };
                assert(rows[i].1.members().contains(members[k]));
                assert(rows[rows.len() - 1].1.members().contains(members[k]));
            }
        }
        lemma_claims_fit(known, last.alias, members);
    }
}

/// A tenant divides what it has, and cannot enlarge it: the credits of the budget in force
/// are never more than the host's, nor than its own. The window is that of whichever of the
/// two is in force.
pub proof fn law_a_tenant_cannot_enlarge_its_budget(t: TenantView)
    ensures
        t.budget() is Some <==> t.terms.budget() is Some || t.grants.budget() is Some,
        t.terms.budget() matches Some(host) ==> t.budget() matches Some(b) && b.0 <= host.0,
        t.grants.budget() matches Some(own) ==> t.budget() matches Some(b) && b.0 <= own.0,
        t.budget() is Some ==> t.budget() == t.terms.budget() || t.budget() == t.grants.budget(),
        (t.terms.budget(), t.grants.budget()) matches (Some(host), Some(own)) ==> t.budget()
            == Some(
            if own.0 <= host.0 {
                own
            } else {
                host
            },
        ),
{
}

proof fn lemma_with_others(base: Seq<Seq<char>>, others: Seq<Seq<char>>, one: Seq<char>)
    ensures
        with_others(base, others).contains(one) <==> base.contains(one) || others.contains(one),
    decreases others.len(),
{
    if others.len() > 0 {
        let less = others.drop_last();
        lemma_with_others(base, less, one);
        let so_far = with_others(base, less);
        let last = others[others.len() - 1];
        assert(others.contains(one) <==> less.contains(one) || one == last) by {
            if others.contains(one) {
                let k = others.index_of(one);
                if k < less.len() {
                    assert(less[k] == one);
                }
            }
            if less.contains(one) {
                assert(others[less.index_of(one)] == one);
            }
        }
        if !so_far.contains(last) {
            let all = so_far.push(last);
            assert(all[all.len() - 1] == last);
            if so_far.contains(one) {
                assert(all[so_far.index_of(one)] == one);
            }
            if all.contains(one) {
                let k = all.index_of(one);
                if k < so_far.len() {
                    assert(so_far[k] == one);
                }
            }
        }
    }
}

/// The callers that count as a tenant are those the host listed, or the tenant's own name
/// where it listed none, and whoever may change the policy.
pub proof fn law_an_admin_is_a_member(t: TenantView, caller: Seq<char>)
    ensures
        t.members().contains(caller) <==> {
            ||| t.terms.members.contains(caller)
            ||| t.terms.members.len() == 0 && caller == t.alias
            ||| t.may_write(caller)
        },
{
    let base = if t.terms.members.len() == 0 {
        seq![t.alias]
    } else {
        t.terms.members
    };
    lemma_with_others(base, t.terms.admins, caller);
    assert(seq![t.alias].contains(caller) <==> caller == t.alias) by {
        assert(seq![t.alias][0] == t.alias);
    }
    if t.terms.members.len() == 0 {
        assert(!t.terms.members.contains(caller));
    }
}

/// An empty list of admins is nobody, and not everybody.
pub proof fn law_nobody_writes_unless_the_host_said_so(t: TenantView, caller: Seq<char>)
    requires
        t.terms.admins.len() == 0,
    ensures
        !t.may_write(caller),
{
}

/// An edit that does not read takes no tenant offline and moves no caller, and it is
/// remembered.
pub proof fn law_a_typo_keeps_the_last_good_copy(
    known: TenantsView,
    name: Seq<char>,
    why: Seq<char>,
    caller: Seq<char>,
)
    ensures
        known.refreshed(name, Err(why)).of_caller(caller) == known.of_caller(caller),
        known.refreshed(name, Err(why)).loaded == known.loaded,
        known.refreshed(name, Err(why)).unread.dom().contains(name),
        known.refreshed(name, Err(why)).unread[name] == why,
{
}

/// A tenant is marked exactly where the copy in force is not the one on disk: reading its
/// folder again sets the mark where it does not read and takes it away where it does, and
/// leaves that of every other tenant alone.
pub proof fn law_the_mark_says_that_an_edit_did_not_apply(
    known: TenantsView,
    name: Seq<char>,
    fresh: Result<TenantView, Seq<char>>,
    other: Seq<char>,
)
    requires
        other != name,
    ensures
        known.refreshed(name, fresh).unread.dom().contains(name) <==> fresh is Err,
        fresh matches Err(why) ==> known.refreshed(name, fresh).unread[name] == why,
        known.refreshed(name, fresh).unread.dom().contains(other)
            <==> known.unread.dom().contains(other),
        known.unread.dom().contains(other) ==> known.refreshed(name, fresh).unread[other]
            == known.unread[other],
{
}

/// Reading every folder again drops no tenant: one that was served and no longer reads is
/// served as it was.
pub proof fn law_a_rescan_drops_nobody(known: TenantsView, list: Seq<FoundView>, name: Seq<char>)
    requires
        known.loaded.dom().contains(name),
    ensures
        known.rescanned(list).0.loaded.dom().contains(name),
        !readable(list).dom().contains(name) ==> known.rescanned(list).0.loaded[name]
            == known.loaded[name],
{
}

/// A name that is accepted is that of one folder: it neither goes up nor goes down.
pub proof fn law_a_plain_name_is_one_folder(alias: Seq<char>)
    requires
        plain(alias),
    ensures
        text::lacks(alias, '/'),
        text::lacks(alias, '.'),
        text::no_space(alias),
{
    assert forall|i: int| 0 <= i < alias.len() implies !text::is_space(#[trigger] alias[i]) by {
        assert(plain_char(alias[i]));
    }
    assert forall|i: int| 0 <= i < alias.len() implies #[trigger] alias[i] != '/' && alias[i]
        != '.' by {
        assert(plain_char(alias[i]));
    }
}

/// A policy that was accepted can be weighed: a tenant whose folder holds what came of an
/// upload is read, whatever terms the host set.
pub proof fn law_an_accepted_upload_can_be_read(
    accepted: Result<upload::Accepted, String>,
    files: Seq<FileView>,
    staging: Seq<char>,
    read: Result<Tenant, String>,
    alias: Seq<char>,
    terms: Option<TermsView>,
    policy_path: Seq<char>,
)
    requires
        upload::accepts(accepted, files, staging),
        accepted is Ok,
        reads(
            read,
            alias,
            terms,
            policy_path,
            upload::text_under(proto::files(accepted->Ok_0.files@), policy::FILE@)->Some_0,
            proto::files(accepted->Ok_0.files@),
        ),
    ensures
        upload::text_under(proto::files(accepted->Ok_0.files@), policy::FILE@) is Some,
        read is Ok,
        read->Ok_0@.alias == alias,
{
}

/// A new tenant gets a folder of its own below the root, exactly where its name is made of
/// small letters, digits, hyphens and underscores and there is no such folder yet.
pub proof fn law_a_new_tenant_gets_a_folder_of_its_own(
    root: Seq<char>,
    alias: Seq<char>,
    exists: bool,
)
    requires
        root.len() > 0,
        root.last() != '/',
    ensures
        folder_for(root, alias, exists) is Ok <==> !exists && forall|i: int|
            0 <= i < alias.len() ==> "abcdefghijklmnopqrstuvwxyz0123456789-_"@.contains(
                #[trigger] alias[i],
            ),
        folder_for(root, alias, exists) matches Ok(at) ==> at == root + "/tenants/"@ + alias,
{
    let all = "abcdefghijklmnopqrstuvwxyz0123456789-_"@;
    reveal_strlit("abcdefghijklmnopqrstuvwxyz0123456789-_");
    reveal_strlit("/tenants/");
    reveal_strlit("tenants");
    reveal_strlit("/");
    assert forall|c: char| #[trigger] plain_char(c) implies all.contains(c) by {
        if 'a' <= c <= 'z' {
            assert(all[c as u32 as int - 'a' as u32 as int] == c);
        } else if '0' <= c <= '9' {
            assert(all[26 + c as u32 as int - '0' as u32 as int] == c);
        } else if c == '-' {
            assert(all[36] == c);
        } else {
            assert(all[37] == c);
        }
    }
    assert forall|c: char| #[trigger] all.contains(c) implies plain_char(c) by {
        let i = all.index_of(c);
        assert(all[i] == c);
    }
    if plain(alias) {
        assert forall|i: int| 0 <= i < alias.len() implies all.contains(#[trigger] alias[i]) by {
            assert(plain_char(alias[i]));
        }
        assert(!text::ends(root, "/"@)) by {
            if text::ends(root, "/"@) {
                assert(root.skip(root.len() - 1)[0] == root.last());
            }
        }
        assert(!text::begins(DIR@, "/"@)) by {
            assert(DIR@.take(1)[0] == 't');
        }
        let dir = root + "/"@ + DIR@;
        assert(path::join_of(root, DIR@) == dir);
        assert(!text::ends(dir, "/"@)) by {
            assert(dir.skip(dir.len() - 1)[0] == 's');
        }
        assert(!text::begins(alias, "/"@)) by {
            if text::begins(alias, "/"@) {
                assert(alias.take(1)[0] == alias[0]);
                assert(plain_char(alias[0]));
            }
        }
        assert(dir + "/"@ + alias =~= root + "/tenants/"@ + alias);
    } else {
        let i = choose|i: int| 0 <= i < alias.len() && !plain_char(#[trigger] alias[i]);
        assert(!all.contains(alias[i]));
    }
}

/// Where the host wrote no terms, a tenant may have ten machines, speaks for itself alone, and
/// nobody may change its rules; its money is not counted.
pub proof fn law_without_terms_a_modest_ceiling_holds(t: TenantView, caller: Seq<char>)
    requires
        t.terms == TermsView::default(),
    ensures
        t.terms.ceiling == 10,
        t.members() == seq![t.alias],
        !t.may_write(caller),
        t.budget() == t.grants.budget(),
{
}

/// The host's credits are counted over its window, or over a day where it named none.
pub proof fn law_the_hosts_credits_are_counted_over_its_window_or_a_day(terms: TermsView)
    ensures
        terms.credits is None ==> terms.budget() is None,
        (terms.credits, terms.window) matches (Some(credits), Some(window)) ==> terms.budget()
            == Some((credits, window)),
        (terms.credits, terms.window) matches (Some(credits), None) ==> terms.budget() == Some(
            (credits, 86_400u64),
        ),
{
}

/// Whoever stands among the admins may change the rules, wherever on the list, and nobody else.
pub proof fn law_only_the_admins_write(t: TenantView, caller: Seq<char>)
    ensures
        t.may_write(caller) <==> exists|i: int|
            0 <= i < t.terms.admins.len() && #[trigger] t.terms.admins[i] == caller,
{
    if t.may_write(caller) {
        let i = t.terms.admins.index_of(caller);
        assert(t.terms.admins[i] == caller);
    }
}

/// A caller is served as the tenant that counts it among its own, and a caller that none does
/// is served as nobody.
pub proof fn law_a_caller_is_served_as_its_tenant(
    loaded: Map<Seq<char>, TenantView>,
    by_member: Map<Seq<char>, Seq<char>>,
    name: Seq<char>,
    caller: Seq<char>,
)
    requires
        loaded.dom().finite(),
        named(loaded),
        index_of(table::row_of(loaded)) == Ok::<Map<Seq<char>, Seq<char>>, Seq<char>>(by_member),
    ensures
        loaded.dom().contains(name) && loaded[name].members().contains(caller)
            ==> by_member.dom().contains(caller) && by_member[caller] == name,
        by_member.dom().contains(caller) ==> loaded.dom().contains(by_member[caller])
            && loaded[by_member[caller]].members().contains(caller),
{
    let rows = table::row_of(loaded);
    table::lemma_row_of(loaded);
    lemma_index(rows, by_member);
    if loaded.dom().contains(name) {
        assert(table::has_key(rows, name));
        let i = choose|i: int| 0 <= i < rows.len() && #[trigger] rows[i].0 == name;
        table::lemma_entry(rows, i);
        assert(rows[i].1 == loaded[name]);
    }
    if by_member.dom().contains(caller) {
        let i = choose|i: int|
            {
                &&& 0 <= i < rows.len()
                &&& #[trigger] rows[i].1.members().contains(caller)
                &&& by_member[caller] == rows[i].1.alias
            };
        table::lemma_entry(rows, i);
        assert(loaded.dom().contains(rows[i].0));
        assert(loaded[rows[i].0] == rows[i].1);
    }
}

/// An edit that reads is in force at once: whoever asks next is served by it, as the tenant it
/// is for, and every other tenant stays as it was.
pub proof fn law_an_edit_is_in_force_at_once(
    known: TenantsView,
    name: Seq<char>,
    tenant: TenantView,
    other: Seq<char>,
    by_member: Map<Seq<char>, Seq<char>>,
    caller: Seq<char>,
)
    requires
        known.loaded.dom().finite(),
        named(known.loaded),
        tenant.alias == name,
        other != name,
        index_of(table::row_of(known.loaded.insert(name, tenant))) == Ok::<
            Map<Seq<char>, Seq<char>>,
            Seq<char>,
        >(by_member),
    ensures
        ({
            let next = known.refreshed(name, Ok(tenant));
            &&& next.loaded.dom().contains(name)
            &&& next.loaded[name] == tenant
            &&& next.loaded.dom().contains(other) <==> known.loaded.dom().contains(other)
            &&& known.loaded.dom().contains(other) ==> next.loaded[other] == known.loaded[other]
            &&& tenant.members().contains(caller) ==> next.of_caller(caller) == Some(tenant)
        }),
{
    let loaded = known.loaded.insert(name, tenant);
    assert(named(loaded));
    law_a_caller_is_served_as_its_tenant(loaded, by_member, name, caller);
}

/// Reading every folder again puts each one that reads in force, and marks each one that does
/// not, with the reason.
pub proof fn law_a_rescan_takes_in_every_folder(known: TenantsView, list: Seq<FoundView>, i: int)
    requires
        0 <= i < list.len(),
        forall|j: int| i < j < list.len() ==> (#[trigger] list[j]).name != list[i].name && (
        list[j].read matches Ok(t) ==> list[i].read matches Ok(u) ==> t.alias != u.alias),
        known.rescanned(list).1 is None,
    ensures
        list[i].read matches Ok(t) ==> {
            &&& known.rescanned(list).0.loaded.dom().contains(t.alias)
            &&& known.rescanned(list).0.loaded[t.alias] == t
        },
        list[i].read matches Err(why) ==> {
            &&& known.rescanned(list).0.unread.dom().contains(list[i].name)
            &&& known.rescanned(list).0.unread[list[i].name] == why
        },
{
    lemma_sorted_out(list, i);
}

proof fn lemma_sorted_out(list: Seq<FoundView>, i: int)
    requires
        0 <= i < list.len(),
        forall|j: int| i < j < list.len() ==> (#[trigger] list[j]).name != list[i].name && (
        list[j].read matches Ok(t) ==> list[i].read matches Ok(u) ==> t.alias != u.alias),
    ensures
        list[i].read matches Ok(t) ==> readable(list).dom().contains(t.alias) && readable(
            list,
        )[t.alias] == t,
        list[i].read matches Err(why) ==> unreadable(list).dom().contains(list[i].name)
            && unreadable(list)[list[i].name] == why,
    decreases list.len(),
{
    if i < list.len() - 1 {
        let less = list.drop_last();
        assert(list[list.len() - 1].name != list[i].name);
        assert forall|j: int| i < j < less.len() implies (#[trigger] less[j]).name != less[i].name
            && (less[j].read matches Ok(t) ==> less[i].read matches Ok(u) ==> t.alias
            != u.alias) by {
            assert(less[j] == list[j]);
        }
        lemma_sorted_out(less, i);
    }
}

/// What was never found is never served, and no folder that reads is marked.
pub proof fn law_nobody_is_served_who_was_not_found(list: Seq<FoundView>, name: Seq<char>)
    ensures
        readable(list).dom().contains(name) ==> exists|i: int|
            0 <= i < list.len() && ((#[trigger] list[i]).read matches Ok(t) && t.alias == name && t
                == readable(list)[name]),
        unreadable(list).dom().contains(name) ==> exists|i: int|
            0 <= i < list.len() && (#[trigger] list[i]).name == name && list[i].read == Err::<
                TenantView,
                Seq<char>,
            >(unreadable(list)[name]),
    decreases list.len(),
{
    if list.len() > 0 {
        let less = list.drop_last();
        law_nobody_is_served_who_was_not_found(less, name);
        if readable(less).dom().contains(name) {
            let i = choose|i: int|
                0 <= i < less.len() && ((#[trigger] less[i]).read matches Ok(t) && t.alias == name
                    && t == readable(less)[name]);
            assert(list[i] == less[i]);
        }
        if unreadable(less).dom().contains(name) {
            let i = choose|i: int|
                0 <= i < less.len() && (#[trigger] less[i]).name == name && less[i].read == Err::<
                    TenantView,
                    Seq<char>,
                >(unreadable(less)[name]);
            assert(list[i] == less[i]);
        }
        assert(list[list.len() - 1] == list.last());
    }
}

/// A folder whose policy parses, and that is not too much to weigh, is a tenant: under its own
/// name, on the host's terms, with what its policy settles and everything it has written down.
pub proof fn law_a_folder_that_reads_is_a_tenant(
    result: Result<Tenant, String>,
    alias: Seq<char>,
    terms: Option<TermsView>,
    policy_path: Seq<char>,
    policy_text: Seq<char>,
    files: Seq<FileView>,
    grants: GrantsView,
)
    requires
        reads(result, alias, terms, policy_path, policy_text, files),
    ensures
        policy::grants_of(policy_text) is Err ==> result is Err,
        policy::grants_of(policy_text) == Ok::<GrantsView, Seq<char>>(grants) ==> {
            &&& result is Ok <==> rulebook::bytes(rulebook::rows(files)) <= 256 * 1024
            &&& result matches Ok(tenant) ==> {
                &&& tenant@.alias == alias
                &&& terms matches Some(told) ==> tenant@.terms == told
                &&& terms is None ==> tenant@.terms.ceiling == 10 && tenant@.terms.admins.len() == 0
                &&& tenant@.policy_path == policy_path
                &&& tenant@.policy_text == policy_text
                &&& tenant@.grants == grants
                &&& tenant@.rulebook == rulebook::rendering(rulebook::rows(files))
            }
        },
{
}

/// A folder that does not read says why: where the policy stands and what is wrong with it, or
/// how big the folder is.
pub proof fn law_a_folder_that_does_not_read_says_why(
    result: Result<Tenant, String>,
    alias: Seq<char>,
    terms: Option<TermsView>,
    policy_path: Seq<char>,
    policy_text: Seq<char>,
    files: Seq<FileView>,
)
    requires
        reads(result, alias, terms, policy_path, policy_text, files),
    ensures
        policy::grants_of(policy_text) matches Err(inner) ==> (result matches Err(why) && why@
            == "reading the grants block in "@ + policy_path + ": "@ + inner),
        policy::grants_of(policy_text) is Ok && result is Err ==> result->Err_0@
            == rulebook::too_big(
            fleet::at_most(rulebook::bytes(rulebook::rows(files)), u64::MAX as nat),
        ),
{
}

} // verus!
