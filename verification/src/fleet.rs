//! The controller's view of its workers: who is here, what they can do, who has them, and
//! when to take them back.
//!
//! All of it lives here because the controller is the only party that can see the whole
//! fleet. A worker knows only what it was told; a tester knows only what it was granted.

use vstd::prelude::*;
use vstd::string::*;

use crate::proto::{Limits, Nivedana};
use crate::table::{self, Table};
use crate::text;

verus! {

/// How long a reservation survives without being released, when the organisation has not
/// said otherwise: the backstop for a caller that dies mid-run.
pub const RESERVATION_SECS: u64 = 600;

// ---------------------------------------------------------------------------
// machines and reservations
// ---------------------------------------------------------------------------

#[derive(Debug, Clone)]
pub struct Worker {
    pub name: String,
    pub key: String,
    pub hints: Vec<String>,
    pub capabilities: Vec<String>,
    /// Credits per minute while held. Announced by the machine, which is what knows.
    pub rate: u32,
    /// The reservation holding it, if any. One at a time.
    pub held_by: Option<String>,
}

/// What a worker is, as text.
#[verifier::ext_equal]
pub struct WorkerView {
    pub name: Seq<char>,
    pub key: Seq<char>,
    pub hints: Seq<Seq<char>>,
    pub capabilities: Seq<Seq<char>>,
    pub rate: u32,
    pub held_by: Option<Seq<char>>,
}

/// What an optional text holds.
pub open spec fn held_text(held: Option<String>) -> Option<Seq<char>> {
    match held {
        Some(id) => Some(id@),
        None => None,
    }
}

impl View for Worker {
    type V = WorkerView;

    open spec fn view(&self) -> WorkerView {
        WorkerView {
            name: self.name@,
            key: self.key@,
            hints: text::texts(self.hints@),
            capabilities: text::texts(self.capabilities@),
            rate: self.rate,
            held_by: held_text(self.held_by),
        }
    }
}

impl WorkerView {
    /// Can this machine do everything that is wanted? Having more does not disqualify.
    pub open spec fn satisfies(self, wanted: Seq<Seq<char>>) -> bool {
        forall|i: int| 0 <= i < wanted.len() ==> self.capabilities.contains(#[trigger] wanted[i])
    }
}

impl Worker {
    pub fn is_free(&self) -> (r: bool)
        ensures
            r == (self@.held_by is None),
    {
        self.held_by.is_none()
    }

    /// Can this machine do everything the plea asked for?
    ///
    /// Every requested capability must be present. A machine that has extra is still a
    /// candidate, or the fleet fragments for no reason.
    pub fn satisfies(&self, wanted: &[String]) -> (r: bool)
        ensures
            r == self@.satisfies(text::texts(wanted@)),
    {
        let mut i: usize = 0;
        while i < wanted.len()
            invariant
                i <= wanted@.len(),
                forall|k: int| 0 <= k < i ==> self@.capabilities.contains(#[trigger] text::texts(wanted@)[k]),
            decreases wanted@.len() - i,
        {
            if !text::listed(self.capabilities.as_slice(), wanted[i].as_str()) {
                assert(!self@.capabilities.contains(text::texts(wanted@)[i as int]));
                return false;
            }
            i = i + 1;
        }
        true
    }

    /// The same machine, written down again.
    pub fn copied(&self) -> (r: Self)
        ensures
            r@ == self@,
    {
        Worker {
            name: self.name.clone(),
            key: self.key.clone(),
            hints: text::copied(self.hints.as_slice()),
            capabilities: text::copied(self.capabilities.as_slice()),
            rate: self.rate,
            held_by: match &self.held_by {
                Some(id) => Some(id.clone()),
                None => None,
            },
        }
    }
}

#[derive(Debug, Clone)]
pub struct Reservation {
    pub id: String,
    /// The key that may use it. Bound into every ticket minted for it.
    pub caller: String,
    /// Who asked, for display.
    pub alias: String,
    /// Who pays: several callers may share one tenant.
    pub tenant: String,
    pub workers: Vec<String>,
    /// Credits per minute for the whole grant, fixed when it was made.
    pub rate: u32,
    pub started_at: u64,
    pub expires_at: u64,
}

#[verifier::ext_equal]
pub struct ReservationView {
    pub id: Seq<char>,
    pub caller: Seq<char>,
    pub alias: Seq<char>,
    pub tenant: Seq<char>,
    pub workers: Seq<Seq<char>>,
    pub rate: u32,
    pub started_at: u64,
    pub expires_at: u64,
}

impl View for Reservation {
    type V = ReservationView;

    open spec fn view(&self) -> ReservationView {
        ReservationView {
            id: self.id@,
            caller: self.caller@,
            alias: self.alias@,
            tenant: self.tenant@,
            workers: text::texts(self.workers@),
            rate: self.rate,
            started_at: self.started_at,
            expires_at: self.expires_at,
        }
    }
}

/// Minutes charged for holding something from `started` to `at`: every minute begun, and
/// one at least.
pub open spec fn minutes_held(started: nat, at: nat) -> nat {
    let seconds = if at > started { (at - started) as nat } else { 0 };
    if seconds == 0 {
        1
    } else {
        (seconds + 59) / 60
    }
}

/// The largest number of credits that is ever told: a bill past it is told as that.
pub open spec fn at_most(n: nat, most: nat) -> nat {
    if n <= most {
        n
    } else {
        most
    }
}

impl ReservationView {
    /// What holding it until `at` costs.
    pub open spec fn cost_by(self, at: nat) -> nat {
        at_most(minutes_held(self.started_at as nat, at) * self.rate as nat, u64::MAX as nat)
    }

    /// The most it can still cost if nobody releases it.
    pub open spec fn worst_case(self) -> nat {
        self.cost_by(self.expires_at as nat)
    }
}

fn minutes(started: u64, at: u64) -> (r: u64)
    ensures
        r == minutes_held(started as nat, at as nat),
        r >= 1,
{
    let seconds: u64 = if at > started { at - started } else { 0 };
    if seconds == 0 {
        1
    } else {
        (seconds - 1) / 60 + 1
    }
}

impl Reservation {
    /// What this has cost so far, in credits.
    ///
    /// Part-minutes count as a minute. Charging nothing for a fifty-second run would make
    /// a fleet free to anybody willing to churn.
    pub fn cost_by(&self, at: u64) -> (r: u64)
        ensures
            r == self@.cost_by(at as nat),
    {
        match minutes(self.started_at, at).checked_mul(self.rate as u64) {
            Some(credits) => credits,
            None => u64::MAX,
        }
    }

    /// The most this can still cost if nobody releases it: what a budget has to count as
    /// already committed.
    pub fn worst_case(&self) -> (r: u64)
        ensures
            r == self@.worst_case(),
    {
        self.cost_by(self.expires_at)
    }
}

// ---------------------------------------------------------------------------
// the fleet
// ---------------------------------------------------------------------------

#[derive(Debug)]
pub struct Fleet {
    workers: Table<Worker>,
    reservations: Table<Reservation>,
    /// Monotonic, so reservation ids are unique within a controller's life.
    next: u64,
}

/// What a fleet is: machines by name, reservations by id, and how many ids were given out.
#[verifier::ext_equal]
pub struct FleetView {
    pub workers: Map<Seq<char>, WorkerView>,
    pub reservations: Map<Seq<char>, ReservationView>,
    pub issued: nat,
}

impl View for Fleet {
    type V = FleetView;

    closed spec fn view(&self) -> FleetView {
        FleetView {
            workers: self.workers.dict(),
            reservations: self.reservations.dict(),
            issued: self.next as nat,
        }
    }
}

/// The id of the `n`th reservation.
pub open spec fn reservation_id(n: nat) -> Seq<char> {
    "r"@ + text::decimal_of(n)
}

pub proof fn lemma_reservation_ids_differ(a: nat, b: nat)
    requires
        reservation_id(a) == reservation_id(b),
    ensures
        a == b,
{
    text::lemma_decimal_reads_back(a);
    text::lemma_decimal_reads_back(b);
    let skip = "r"@.len() as int;
    assert(reservation_id(a).skip(skip) =~= text::decimal_of(a));
    assert(reservation_id(b).skip(skip) =~= text::decimal_of(b));
}

impl FleetView {
    pub open spec fn empty() -> FleetView {
        FleetView { workers: Map::empty(), reservations: Map::empty(), issued: 0 }
    }

    /// Every machine is filed under its own name, every reservation under its own id, and
    /// no id is one that is still to be given out.
    pub open spec fn wf(self) -> bool {
        &&& self.workers.dom().finite()
        &&& self.reservations.dom().finite()
        &&& forall|n: Seq<char>| #[trigger]
            self.workers.dom().contains(n) ==> self.workers[n].name == n
        &&& forall|id: Seq<char>| #[trigger]
            self.reservations.dom().contains(id) ==> self.reservations[id].id == id
                && self.given_out(id)
    }

    pub open spec fn given_out(self, id: Seq<char>) -> bool {
        exists|n: nat| 1 <= n <= self.issued && id == #[trigger] reservation_id(n)
    }

    /// Could this machine serve, if it were free?
    pub open spec fn capable(self, wanted: Seq<Seq<char>>, name: Seq<char>) -> bool {
        self.workers.dom().contains(name) && self.workers[name].satisfies(wanted)
    }

    /// Can this machine serve right now?
    pub open spec fn candidate(self, wanted: Seq<Seq<char>>, name: Seq<char>) -> bool {
        self.capable(wanted, name) && self.workers[name].held_by is None
    }

    pub open spec fn capable_count(self, wanted: Seq<Seq<char>>) -> nat {
        self.workers.dom().filter(|n: Seq<char>| self.workers[n].satisfies(wanted)).len()
    }

    pub open spec fn free_count(self) -> nat {
        self.workers.dom().filter(|n: Seq<char>| self.workers[n].held_by is None).len()
    }

    /// The order machines are spent in: the cheaper first, and by name among equals.
    pub open spec fn goes_before(self, a: Seq<char>, b: Seq<char>) -> bool {
        self.workers[a].rate < self.workers[b].rate || (self.workers[a].rate
            == self.workers[b].rate && text::precedes(a, b))
    }

    /// Every machine that can serve right now, each once, in the order they are spent in.
    pub open spec fn is_ranking(self, wanted: Seq<Seq<char>>, names: Seq<Seq<char>>) -> bool {
        &&& forall|i: int| 0 <= i < names.len() ==> self.candidate(wanted, #[trigger] names[i])
        &&& forall|n: Seq<char>| #[trigger] self.candidate(wanted, n) ==> names.contains(n)
        &&& forall|i: int, j: int|
            0 <= i < j < names.len() ==> self.goes_before(#[trigger] names[i], #[trigger] names[j])
    }

    pub open spec fn ranking(self, wanted: Seq<Seq<char>>) -> Seq<Seq<char>> {
        choose|names: Seq<Seq<char>>| self.is_ranking(wanted, names)
    }

    /// What choosing `count` machines comes to.
    pub open spec fn chosen(self, wanted: Seq<Seq<char>>, count: nat) -> Chosen {
        if forall|n: Seq<char>| !self.capable(wanted, n) {
            Chosen::NoneCapable
        } else if self.ranking(wanted).len() < count {
            Chosen::Fewer(self.ranking(wanted).len())
        } else {
            Chosen::Machines(self.ranking(wanted).take(count as int))
        }
    }

    /// Credits per minute for a list of machines. One that is not here costs nothing.
    pub open spec fn rates(self, names: Seq<Seq<char>>) -> nat
        decreases names.len(),
    {
        if names.len() == 0 {
            0
        } else {
            self.rates(names.drop_last()) + if self.workers.dom().contains(names.last()) {
                self.workers[names.last()].rate as nat
            } else {
                0
            }
        }
    }

    /// What one reservation adds to a tenant's commitments.
    pub open spec fn commitment(self, tenant: Seq<char>, id: Seq<char>) -> nat {
        if self.reservations[id].tenant == tenant {
            self.reservations[id].worst_case()
        } else {
            0
        }
    }

    /// The most a tenant's open reservations can still cost.
    pub open spec fn committed(self, tenant: Seq<char>) -> nat {
        table::sum_over(
            self.reservations.dom(),
            |id: Seq<char>| self.commitment(tenant, id),
        )
    }
}

/// What choosing machines comes to.
pub enum Chosen {
    /// Nothing here can do it, and waiting will not change that.
    NoneCapable,
    /// So many are free, and that is fewer than asked for.
    Fewer(nat),
    Machines(Seq<Seq<char>>),
}

proof fn lemma_ranking_unique(f: FleetView, wanted: Seq<Seq<char>>, a: Seq<Seq<char>>, b: Seq<Seq<char>>)
    requires
        f.is_ranking(wanted, a),
        f.is_ranking(wanted, b),
    ensures
        a == b,
{
    lemma_ranking_prefix(f, wanted, a, b, a.len() as int);
    lemma_ranking_prefix(f, wanted, b, a, b.len() as int);
    assert(a =~= b);
}

/// The first `k` of one ranking are the first `k` of the other.
proof fn lemma_ranking_prefix(
    f: FleetView,
    wanted: Seq<Seq<char>>,
    a: Seq<Seq<char>>,
    b: Seq<Seq<char>>,
    k: int,
)
    requires
        f.is_ranking(wanted, a),
        f.is_ranking(wanted, b),
        0 <= k <= a.len(),
    ensures
        k <= b.len(),
        forall|i: int| 0 <= i < k ==> a[i] == b[i],
    decreases k,
{
    if k > 0 {
        lemma_ranking_prefix(f, wanted, a, b, k - 1);
        let n = a[k - 1];
        assert(f.candidate(wanted, n));
        let j = choose|j: int| 0 <= j < b.len() && b[j] == n;
        if j < k - 1 {
            assert(a[j] == n);
            lemma_goes_before_irreflexive(f, n);
            assert(f.goes_before(a[j], a[k - 1]));
        }
        if j > k - 1 {
            let m = b[k - 1];
            assert(f.candidate(wanted, m));
            let i = choose|i: int| 0 <= i < a.len() && a[i] == m;
            assert(f.goes_before(b[k - 1], b[j]));
            lemma_goes_before_irreflexive(f, m);
            if i < k - 1 {
                assert(b[i] == m);
                assert(f.goes_before(b[i], b[k - 1]));
            } else if i > k - 1 {
                assert(f.goes_before(a[k - 1], a[i]));
                if f.workers[m].rate == f.workers[n].rate {
                    text::lemma_precedes_asymmetric(m, n);
                }
            }
        }
    }
}

proof fn lemma_goes_before_irreflexive(f: FleetView, n: Seq<char>)
    ensures
        !f.goes_before(n, n),
{
    text::lemma_precedes_irreflexive(n);
}

/// Names of a finite set can be put into the order they are spent in.
proof fn lemma_ordered(f: FleetView, names: Set<Seq<char>>) -> (r: Seq<Seq<char>>)
    requires
        names.finite(),
    ensures
        forall|i: int| 0 <= i < r.len() ==> names.contains(#[trigger] r[i]),
        forall|n: Seq<char>| #[trigger] names.contains(n) ==> r.contains(n),
        forall|i: int, j: int| 0 <= i < j < r.len() ==> f.goes_before(#[trigger] r[i], #[trigger] r[j]),
    decreases names.len(),
{
    if names.len() == 0 {
        names.lemma_len0_is_empty();
        Seq::empty()
    } else {
        let n = names.choose();
        let rest = lemma_ordered(f, names.remove(n));
        let p = lemma_place_for(f, rest, n, 0);
        let r = rest.insert(p, n);
        assert forall|i: int, j: int| 0 <= i < j < r.len() implies f.goes_before(
            #[trigger] r[i],
            #[trigger] r[j],
        ) by {
            let x = if i < p { i } else { i - 1 };
            let y = if j < p { j } else { j - 1 };
            if i != p {
                assert(r[i] == rest[x]);
            }
            if j != p {
                assert(r[j] == rest[y]);
            }
        }
        assert forall|m: Seq<char>| #[trigger] names.contains(m) implies r.contains(m) by {
            if m == n {
                assert(r[p] == n);
            } else {
                assert(names.remove(n).contains(m));
                let k = choose|k: int| 0 <= k < rest.len() && rest[k] == m;
                assert(r[if k < p { k } else { k + 1 }] == m);
            }
        }
        assert forall|i: int| 0 <= i < r.len() implies names.contains(#[trigger] r[i]) by {
            if i != p {
                assert(r[i] == rest[if i < p { i } else { i - 1 }]);
            }
        }
        r
    }
}

/// Where a name that is not in an ordered list has to be put.
proof fn lemma_place_for(f: FleetView, rest: Seq<Seq<char>>, n: Seq<char>, from: int) -> (p: int)
    requires
        0 <= from <= rest.len(),
        !rest.contains(n),
        forall|i: int, j: int|
            0 <= i < j < rest.len() ==> f.goes_before(#[trigger] rest[i], #[trigger] rest[j]),
        forall|i: int| 0 <= i < from ==> f.goes_before(#[trigger] rest[i], n),
    ensures
        from <= p <= rest.len(),
        forall|i: int| 0 <= i < p ==> f.goes_before(#[trigger] rest[i], n),
        forall|i: int| p <= i < rest.len() ==> f.goes_before(n, #[trigger] rest[i]),
    decreases rest.len() - from,
{
    if from == rest.len() {
        from
    } else if f.goes_before(rest[from], n) {
        lemma_place_for(f, rest, n, from + 1)
    } else {
        text::lemma_precedes_total(rest[from], n);
        assert(rest[from] != n);
        assert(f.goes_before(n, rest[from]));
        assert forall|i: int| from <= i < rest.len() implies f.goes_before(n, #[trigger] rest[i]) by {
            if i > from {
                assert(f.goes_before(rest[from], rest[i]));
                if f.workers[n].rate == f.workers[rest[from]].rate && f.workers[rest[from]].rate
                    == f.workers[rest[i]].rate {
                    text::lemma_precedes_transitive(n, rest[from], rest[i]);
                }
            }
        }
        from
    }
}

/// A fleet's ranking is one.
pub proof fn lemma_ranking(f: FleetView, wanted: Seq<Seq<char>>)
    requires
        f.workers.dom().finite(),
    ensures
        f.is_ranking(wanted, f.ranking(wanted)),
{
    let able = f.workers.dom().filter(|n: Seq<char>| f.candidate(wanted, n));
    let names = lemma_ordered(f, able);
    assert forall|n: Seq<char>| #[trigger] f.candidate(wanted, n) implies names.contains(n) by {
        assert(able.contains(n));
    }
    assert forall|i: int| 0 <= i < names.len() implies f.candidate(wanted, #[trigger] names[i]) by {
        assert(able.contains(names[i]));
    }
    assert(f.is_ranking(wanted, names));
}

/// The names that stand at these places of a roster.
spec fn names_at(rows: Seq<(Seq<char>, WorkerView)>, at: Seq<usize>) -> Seq<Seq<char>> {
    at.map_values(|i: usize| rows[i as int].0)
}

impl Fleet {
    pub open spec fn wf(&self) -> bool {
        self@.wf()
    }

    /// Where the machines that can serve right now stand in the roster, in the order they
    /// are spent in.
    fn ranked(&self, wanted: &[String]) -> (r: Vec<usize>)
        requires
            self.wf(),
        ensures
            forall|i: int| 0 <= i < r@.len() ==> #[trigger] r@[i] < self.workers@.len(),
            self@.is_ranking(text::texts(wanted@), names_at(self.workers@, r@)),
            names_at(self.workers@, r@) == self@.ranking(text::texts(wanted@)),
    {
        let ghost rows = self.workers@;
        let ghost want = text::texts(wanted@);
        let mut order: Vec<usize> = Vec::new();
        let total = self.workers.len();
        proof {
            assert forall|k: int| 0 <= k < rows.len() implies self@.workers.dom().contains(
                #[trigger] rows[k].0,
            ) && self@.workers[rows[k].0] == rows[k].1 by {
                table::lemma_entry(rows, k);
            }
        }
        let mut i: usize = 0;
        while i < total
            invariant
                self.wf(),
                rows == self.workers@,
                want == text::texts(wanted@),
                total == rows.len(),
                i <= total,
                table::ascending(rows),
                forall|k: int|
                    0 <= k < rows.len() ==> self@.workers.dom().contains(#[trigger] rows[k].0)
                        && self@.workers[rows[k].0] == rows[k].1,
                forall|a: int| 0 <= a < order@.len() ==> #[trigger] order@[a] < i,
                forall|a: int|
                    0 <= a < order@.len() ==> self@.candidate(
                        want,
                        rows[(#[trigger] order@[a]) as int].0,
                    ),
                forall|k: int|
                    0 <= k < i && self@.candidate(want, (#[trigger] rows[k]).0)
                        ==> order@.contains(k as usize),
                forall|a: int, b: int|
                    0 <= a < b < order@.len() ==> self@.goes_before(
                        rows[(#[trigger] order@[a]) as int].0,
                        rows[(#[trigger] order@[b]) as int].0,
                    ),
            decreases total - i,
        {
            let worker = self.workers.value_at(i);
            assert(worker@ == rows[i as int].1);
            if worker.is_free() && worker.satisfies(wanted) {
                let mut p: usize = 0;
                while p < order.len() && self.workers.value_at(order[p]).rate <= worker.rate
                    invariant
                        p <= order@.len(),
                        rows == self.workers@,
                        i < rows.len(),
                        worker@ == rows[i as int].1,
                        forall|a: int| 0 <= a < order@.len() ==> #[trigger] order@[a] < i,
                        forall|a: int|
                            0 <= a < p ==> rows[(#[trigger] order@[a]) as int].1.rate
                                <= worker.rate,
                    decreases order@.len() - p,
                {
                    p = p + 1;
                }
                let ghost had = order@;
                order.insert(p, i);
                proof {
                    assert forall|k: int| 0 <= k < i + 1 && self@.candidate(
                        want,
                        (#[trigger] rows[k]).0,
                    ) implies order@.contains(k as usize) by {
                        if k < i {
                            let a = choose|a: int| 0 <= a < had.len() && had[a] == k as usize;
                            assert(order@[if a < p { a } else { a + 1 }] == k as usize);
                        } else {
                            assert(order@[p as int] == i);
                        }
                    }
                    assert forall|a: int, b: int| 0 <= a < b < order@.len() implies self@.goes_before(
                        rows[(#[trigger] order@[a]) as int].0,
                        rows[(#[trigger] order@[b]) as int].0,
                    ) by {
                        let x = if a < p { a } else { a - 1 };
                        let y = if b < p { b } else { b - 1 };
                        if a != p && b != p {
                            assert(order@[a] == had[x] && order@[b] == had[y]);
                        } else if b == p {
                            assert(order@[a] == had[a]);
                            assert(text::precedes(rows[had[a] as int].0, rows[i as int].0));
                        } else {
                            assert(order@[b] == had[y]);
                            assert(rows[had[p as int] as int].1.rate > worker.rate);
                            if y > p {
                                assert(self@.goes_before(
                                    rows[had[p as int] as int].0,
                                    rows[had[y] as int].0,
                                ));
                            }
                        }
                    }
                }
            } else {
                assert(!self@.candidate(want, rows[i as int].0));
            }
            i = i + 1;
        }
        proof {
            let names = names_at(rows, order@);
            assert forall|n: Seq<char>| #[trigger] self@.candidate(want, n) implies names.contains(
                n,
            ) by {
                assert(table::has_key(rows, n));
                let k = choose|k: int| 0 <= k < rows.len() && #[trigger] rows[k].0 == n;
                let a = choose|a: int| 0 <= a < order@.len() && order@[a] == k as usize;
                assert(names[a] == n);
            }
            assert(self@.is_ranking(want, names));
            assert(self@.is_ranking(want, self@.ranking(want)));
            lemma_ranking_unique(self@, want, names, self@.ranking(want));
        }
        order
    }
}

/// The fleet as a model sees it: how many could do this work, how many are free right now,
/// and what each free one costs per minute. No names, no holders.
#[derive(Debug, Clone)]
pub struct Brief {
    pub fleet: u32,
    pub capable: u32,
    pub free: u32,
    /// Rates of the free capable machines in the order they are spent in, so that adding
    /// them up gives the real price of N machines.
    pub rates: Vec<u32>,
}

impl FleetView {
    /// Can any machine here do this?
    pub open spec fn offers(self, c: Seq<char>) -> bool {
        exists|n: Seq<char>|
            self.workers.dom().contains(n) && #[trigger] self.workers[n].capabilities.contains(c)
    }

    /// Everything that some machine here can do, in order and without repetition.
    pub open spec fn abilities(self) -> Seq<Seq<char>> {
        table::row_of(
            Map::new(|c: Seq<char>| self.offers(c), |c: Seq<char>| true),
        ).map_values(|e: (Seq<char>, bool)| e.0)
    }

    proof fn lemma_abilities(self, list: Seq<Seq<char>>)
        requires
            forall|i: int, j: int|
                0 <= i < j < list.len() ==> text::precedes(#[trigger] list[i], #[trigger] list[j]),
            forall|c: Seq<char>| #[trigger] list.contains(c) == self.offers(c),
        ensures
            list == self.abilities(),
    {
        let rows = list.map_values(|c: Seq<char>| (c, true));
        assert(table::ascending(rows));
        assert forall|c: Seq<char>| table::has_key(rows, c) == self.offers(c) by {
            if table::has_key(rows, c) {
                let i = choose|i: int| 0 <= i < rows.len() && #[trigger] rows[i].0 == c;
                assert(list[i] == c);
                assert(list.contains(c));
            }
            if list.contains(c) {
                let i = list.index_of(c);
                assert(rows[i].0 == c);
            }
        }
        let whole = Map::new(|c: Seq<char>| self.offers(c), |c: Seq<char>| true);
        assert forall|c: Seq<char>| #[trigger] table::dict_of(rows).dom().contains(c) implies table::dict_of(
            rows,
        )[c] == true by {
            let i = choose|i: int| 0 <= i < rows.len() && #[trigger] rows[i].0 == c;
            table::lemma_entry(rows, i);
        }
        assert(table::dict_of(rows) =~= whole);
        table::lemma_row_is(rows);
        assert(list =~= rows.map_values(|e: (Seq<char>, bool)| e.0));
    }
}

#[verifier::ext_equal]
pub struct BriefView {
    pub fleet: u32,
    pub capable: u32,
    pub free: u32,
    pub rates: Seq<u32>,
}

impl View for Brief {
    type V = BriefView;

    open spec fn view(&self) -> BriefView {
        BriefView {
            fleet: self.fleet,
            capable: self.capable,
            free: self.free,
            rates: self.rates@,
        }
    }
}

impl FleetView {
    /// What is told of this fleet to whoever weighs a plea for these capabilities.
    pub open spec fn brief(self, wanted: Seq<Seq<char>>) -> BriefView {
        BriefView {
            fleet: self.workers.dom().len() as u32,
            capable: self.capable_count(wanted) as u32,
            free: self.ranking(wanted).len() as u32,
            rates: self.ranking(wanted).map_values(|n: Seq<char>| self.workers[n].rate),
        }
    }
}

impl Default for Brief {
    fn default() -> (r: Self)
        ensures
            r.fleet == 0,
            r.capable == 0,
            r.free == 0,
            r.rates@ == Seq::<u32>::empty(),
    {
        Brief { fleet: 0, capable: 0, free: 0, rates: Vec::new() }
    }
}

/// Why allocation could not be satisfied in full.
#[derive(Debug)]
pub enum Shortfall {
    /// Nothing at all matches, and it never will without a fleet change.
    NoneCapable { wanted: Vec<String> },
    /// Machines exist but are busy, or there are fewer than asked for.
    Fewer { available: u32 },
}

/// Does this shortfall say what the choice came to?
pub open spec fn says(short: Shortfall, wanted: Seq<Seq<char>>, chosen: Chosen) -> bool {
    match short {
        Shortfall::NoneCapable { wanted: told } => chosen is NoneCapable && text::texts(told@) == wanted,
        Shortfall::Fewer { available } => chosen == Chosen::Fewer(available as nat),
    }
}

/// A roster, each machine under its name.
pub open spec fn roster(workers: Seq<&Worker>) -> Seq<(Seq<char>, WorkerView)> {
    workers.map_values(|w: &Worker| (w@.name, w@))
}

pub open spec fn ledger(reservations: Seq<&Reservation>) -> Seq<(Seq<char>, ReservationView)> {
    reservations.map_values(|r: &Reservation| (r@.id, r@))
}

impl Default for Fleet {
    fn default() -> (r: Self)
        ensures
            r.wf(),
            r@ == FleetView::empty(),
    {
        let r = Fleet { workers: Table::new(), reservations: Table::new(), next: 0 };
        assert(r@ =~= FleetView::empty());
        r
    }
}

impl Fleet {
    /// How many reservation ids have been given out.
    pub fn issued(&self) -> (r: u64)
        ensures
            r == self@.issued,
    {
        self.next
    }

    /// Every machine, by name. For the operator, never for a caller.
    pub fn workers(&self) -> (r: Vec<&Worker>)
        requires
            self.wf(),
        ensures
            roster(r@) == table::row_of(self@.workers),
    {
        let mut r: Vec<&Worker> = Vec::new();
        let ghost rows = self.workers@;
        let total = self.workers.len();
        let mut i: usize = 0;
        while i < total
            invariant
                self.wf(),
                rows == self.workers@,
                total == rows.len(),
                i <= total,
                table::ascending(rows),
                roster(r@) == rows.take(i as int),
            decreases total - i,
        {
            let worker = self.workers.value_at(i);
            proof {
                table::lemma_entry(rows, i as int);
                assert(worker@.name == rows[i as int].0);
                assert(roster(r@.push(worker)) =~= roster(r@).push((worker@.name, worker@)));
                assert(rows.take(i as int + 1) =~= rows.take(i as int).push(rows[i as int]));
            }
            r.push(worker);
            i = i + 1;
        }
        assert(rows.take(i as int) =~= rows);
        r
    }

    /// Every open reservation, by id.
    pub fn reservations(&self) -> (r: Vec<&Reservation>)
        requires
            self.wf(),
        ensures
            ledger(r@) == table::row_of(self@.reservations),
    {
        let mut r: Vec<&Reservation> = Vec::new();
        let ghost rows = self.reservations@;
        let total = self.reservations.len();
        let mut i: usize = 0;
        while i < total
            invariant
                self.wf(),
                rows == self.reservations@,
                total == rows.len(),
                i <= total,
                table::ascending(rows),
                ledger(r@) == rows.take(i as int),
            decreases total - i,
        {
            let reservation = self.reservations.value_at(i);
            proof {
                table::lemma_entry(rows, i as int);
                assert(reservation@.id == rows[i as int].0);
                assert(ledger(r@.push(reservation)) =~= ledger(r@).push(
                    (reservation@.id, reservation@),
                ));
                assert(rows.take(i as int + 1) =~= rows.take(i as int).push(rows[i as int]));
            }
            r.push(reservation);
            i = i + 1;
        }
        assert(rows.take(i as int) =~= rows);
        r
    }

    /// Machines that could serve this plea if they were free.
    pub fn capable(&self, wanted: &[String]) -> (r: usize)
        requires
            self.wf(),
        ensures
            r == self@.capable_count(text::texts(wanted@)),
    {
        let ghost rows = self.workers@;
        let ghost kind = |n: Seq<char>| self@.workers[n].satisfies(text::texts(wanted@));
        let total = self.workers.len();
        let mut count: usize = 0;
        let mut i: usize = 0;
        assert(table::keys_of(rows.take(0)).filter(kind) =~= Set::<Seq<char>>::empty());
        while i < total
            invariant
                self.wf(),
                rows == self.workers@,
                total == rows.len(),
                i <= total,
                count <= i,
                table::ascending(rows),
                kind == (|n: Seq<char>| self@.workers[n].satisfies(text::texts(wanted@))),
                count == table::keys_of(rows.take(i as int)).filter(kind).len(),
            decreases total - i,
        {
            proof {
                table::lemma_entry(rows, i as int);
                table::lemma_count_grow(rows, i as int, kind);
            }
            if self.workers.value_at(i).satisfies(wanted) {
                count = count + 1;
            }
            i = i + 1;
        }
        assert(rows.take(i as int) =~= rows);
        count
    }

    /// How many machines are held by nobody.
    fn free(&self) -> (r: usize)
        requires
            self.wf(),
        ensures
            r == self@.free_count(),
    {
        let ghost rows = self.workers@;
        let ghost kind = |n: Seq<char>| self@.workers[n].held_by is None;
        let total = self.workers.len();
        let mut count: usize = 0;
        let mut i: usize = 0;
        assert(table::keys_of(rows.take(0)).filter(kind) =~= Set::<Seq<char>>::empty());
        while i < total
            invariant
                self.wf(),
                rows == self.workers@,
                total == rows.len(),
                i <= total,
                count <= i,
                table::ascending(rows),
                kind == (|n: Seq<char>| self@.workers[n].held_by is None),
                count == table::keys_of(rows.take(i as int)).filter(kind).len(),
            decreases total - i,
        {
            proof {
                table::lemma_entry(rows, i as int);
                table::lemma_count_grow(rows, i as int, kind);
            }
            if self.workers.value_at(i).is_free() {
                count = count + 1;
            }
            i = i + 1;
        }
        assert(rows.take(i as int) =~= rows);
        count
    }

    /// Which machines *would* serve this, changing nothing.
    ///
    /// A dry run and a real one both come here, so they cannot drift. Cheapest first:
    /// asking for `linux` should not spend a GPU box's rate when an ordinary one is idle.
    pub fn select(&self, wanted: &[String], count: u32) -> (r: Result<Vec<String>, Shortfall>)
        requires
            self.wf(),
        ensures
            match r {
                Ok(names) => self@.chosen(text::texts(wanted@), count as nat) == Chosen::Machines(
                    text::texts(names@),
                ),
                Err(short) => says(
                    short,
                    text::texts(wanted@),
                    self@.chosen(text::texts(wanted@), count as nat),
                ),
            },
    {
        let ghost want = text::texts(wanted@);
        if self.capable(wanted) == 0 {
            proof {
                let able = self@.workers.dom().filter(
                    |n: Seq<char>| self@.workers[n].satisfies(want),
                );
                able.lemma_len0_is_empty();
                assert forall|n: Seq<char>| !self@.capable(want, n) by {
                    assert(!able.contains(n));
                }
            }
            // No amount of waiting fixes this, and telling the caller to retry would be a lie.
            return Err(Shortfall::NoneCapable { wanted: text::copied(wanted) });
        }
        proof {
            let able = self@.workers.dom().filter(|n: Seq<char>| self@.workers[n].satisfies(want));
            if forall|n: Seq<char>| !able.contains(n) {
                assert(able =~= Set::<Seq<char>>::empty());
            }
            let n = choose|n: Seq<char>| able.contains(n);
            assert(self@.capable(want, n));
        }
        let order = self.ranked(wanted);
        let mut names: Vec<String> = Vec::new();
        let ghost ranking = self@.ranking(want);
        let mut i: usize = 0;
        while i < order.len() && (i as u64) < (count as u64)
            invariant
                i <= order@.len(),
                i <= count,
                ranking == names_at(self.workers@, order@),
                forall|k: int| 0 <= k < order@.len() ==> #[trigger] order@[k] < self.workers@.len(),
                text::texts(names@) == ranking.take(i as int),
            decreases order@.len() - i,
        {
            let name = self.workers.key_at(order[i]).clone();
            assert(text::texts(names@.push(name)) =~= text::texts(names@).push(name@));
            assert(ranking.take(i as int + 1) =~= ranking.take(i as int).push(ranking[i as int]));
            names.push(name);
            i = i + 1;
        }
        assert(text::texts(names@).len() == names@.len());
        if (names.len() as u64) < (count as u64) {
            return Err(Shortfall::Fewer { available: names.len() as u32 });
        }
        Ok(names)
    }

    /// What the model is told about the fleet: counts and prices, never names.
    pub fn brief(&self, wanted: &[String]) -> (r: Brief)
        requires
            self.wf(),
        ensures
            r@ == self@.brief(text::texts(wanted@)),
    {
        let order = self.ranked(wanted);
        let mut rates: Vec<u32> = Vec::new();
        let ghost ranking = self@.ranking(text::texts(wanted@));
        let ghost rates_of = ranking.map_values(|n: Seq<char>| self@.workers[n].rate);
        let fleet = self.workers.len();
        let mut i: usize = 0;
        while i < order.len()
            invariant
                i <= order@.len(),
                table::ascending(self.workers@),
                ranking == names_at(self.workers@, order@),
                rates_of == ranking.map_values(|n: Seq<char>| self@.workers[n].rate),
                forall|k: int| 0 <= k < order@.len() ==> #[trigger] order@[k] < self.workers@.len(),
                rates@ == rates_of.take(i as int),
            decreases order@.len() - i,
        {
            proof {
                table::lemma_entry(self.workers@, order@[i as int] as int);
                assert(rates_of.take(i as int + 1) =~= rates_of.take(i as int).push(
                    rates_of[i as int],
                ));
            }
            rates.push(self.workers.value_at(order[i]).rate);
            i = i + 1;
        }
        proof {
            assert(rates_of.take(i as int) =~= rates_of);
            table::lemma_keys_finite(self.workers@);
        }
        let brief = Brief {
            fleet: fleet as u32,
            capable: self.capable(wanted) as u32,
            free: rates.len() as u32,
            rates,
        };
        assert(brief@ =~= self@.brief(text::texts(wanted@)));
        brief
    }

    /// Credits per minute for a set of machines.
    pub fn rate_of(&self, names: &[String]) -> (r: u32)
        requires
            self.wf(),
        ensures
            r == at_most(self@.rates(text::texts(names@)), u32::MAX as nat),
    {
        let mut sum: u32 = 0;
        let ghost all = text::texts(names@);
        let mut i: usize = 0;
        while i < names.len()
            invariant
                i <= names@.len(),
                all == text::texts(names@),
                sum == at_most(self@.rates(all.take(i as int)), u32::MAX as nat),
            decreases names@.len() - i,
        {
            proof {
                assert(all.take(i as int + 1).drop_last() =~= all.take(i as int));
                assert(all.take(i as int + 1).last() == names@[i as int]@);
            }
            if let Some(worker) = self.workers.get(names[i].as_str()) {
                sum = match sum.checked_add(worker.rate) {
                    Some(more) => more,
                    None => u32::MAX,
                };
            }
            i = i + 1;
        }
        assert(all.take(i as int) =~= all);
        sum
    }

    /// The most this tenant's open reservations can still cost.
    ///
    /// A budget that looked only at what has been *spent* would let somebody start a
    /// hundred runs at once while comfortably under it, and find out afterwards.
    pub fn committed(&self, tenant: &str) -> (r: u64)
        requires
            self.wf(),
        ensures
            r == at_most(self@.committed(tenant@), u64::MAX as nat),
    {
        let ghost rows = self.reservations@;
        let ghost worth = |id: Seq<char>| self@.commitment(tenant@, id);
        let total = self.reservations.len();
        let mut sum: u64 = 0;
        let mut i: usize = 0;
        assert(table::keys_of(rows.take(0)) =~= Set::<Seq<char>>::empty());
        while i < total
            invariant
                rows == self.reservations@,
                total == rows.len(),
                i <= total,
                table::ascending(rows),
                worth == (|id: Seq<char>| self@.commitment(tenant@, id)),
                sum == at_most(
                    table::sum_over(table::keys_of(rows.take(i as int)), worth),
                    u64::MAX as nat,
                ),
            decreases total - i,
        {
            let reservation = self.reservations.value_at(i);
            proof {
                table::lemma_entry(rows, i as int);
                assert(table::ascending(rows.take(i as int)));
                table::lemma_keys_finite(rows.take(i as int));
                table::lemma_keys_grow(rows, i as int);
                table::lemma_sum_insert(table::keys_of(rows.take(i as int)), worth, rows[i as int].0);
                assert(worth(rows[i as int].0) == self@.commitment(tenant@, rows[i as int].0));
            }
            if text::same(reservation.tenant.as_str(), tenant) {
                sum = match sum.checked_add(reservation.worst_case()) {
                    Some(more) => more,
                    None => u64::MAX,
                };
            }
            i = i + 1;
        }
        assert(rows.take(i as int) =~= rows);
        sum
    }
}

// ---------------------------------------------------------------------------
// what happens to a fleet
// ---------------------------------------------------------------------------

/// The machines of a list, all held by the same reservation or by nobody.
pub open spec fn holding(
    workers: Map<Seq<char>, WorkerView>,
    names: Seq<Seq<char>>,
    by: Option<Seq<char>>,
) -> Map<Seq<char>, WorkerView> {
    Map::new(
        |n: Seq<char>| workers.dom().contains(n),
        |n: Seq<char>|
            if names.contains(n) {
                WorkerView { held_by: by, ..workers[n] }
            } else {
                workers[n]
            },
    )
}

/// Any text but this one.
pub open spec fn other_than(name: Seq<char>) -> spec_fn(Seq<char>) -> bool {
    |w: Seq<char>| w != name
}

impl ReservationView {
    pub open spec fn without(self, name: Seq<char>) -> ReservationView {
        ReservationView { workers: self.workers.filter(other_than(name)), ..self }
    }
}

impl FleetView {
    /// A machine arrives, in place of any other of its name.
    pub open spec fn arrived(self, worker: WorkerView) -> FleetView {
        FleetView { workers: self.workers.insert(worker.name, worker), ..self }
    }

    /// A machine leaves. A reservation that named it keeps its others.
    pub open spec fn departed(self, name: Seq<char>) -> FleetView {
        FleetView {
            workers: self.workers.remove(name),
            reservations: self.reservations.map_values(|r: ReservationView| r.without(name)),
            ..self
        }
    }

    /// The next id is given out, to hold these machines for `lifetime` seconds from `at`.
    pub open spec fn granted(
        self,
        names: Seq<Seq<char>>,
        caller: Seq<char>,
        alias: Seq<char>,
        tenant: Seq<char>,
        lifetime: nat,
        at: u64,
    ) -> FleetView {
        let id = reservation_id(self.issued + 1);
        FleetView {
            workers: holding(self.workers, names, Some(id)),
            reservations: self.reservations.insert(
                id,
                ReservationView {
                    id,
                    caller,
                    alias,
                    tenant,
                    workers: names,
                    rate: at_most(self.rates(names), u32::MAX as nat) as u32,
                    started_at: at,
                    expires_at: at_most(at as nat + lifetime, u64::MAX as nat) as u64,
                },
            ),
            issued: self.issued + 1,
        }
    }

    /// Is this machine named by one of these reservations?
    pub open spec fn named_by(self, ids: Set<Seq<char>>, name: Seq<char>) -> bool {
        exists|id: Seq<char>|
            ids.contains(id) && self.reservations.dom().contains(id)
                && #[trigger] self.reservations[id].workers.contains(name)
    }

    /// These reservations are over, and nobody holds the machines they named.
    pub open spec fn closed(self, ids: Set<Seq<char>>) -> FleetView {
        FleetView {
            workers: Map::new(
                |n: Seq<char>| self.workers.dom().contains(n),
                |n: Seq<char>|
                    if self.named_by(ids, n) {
                        WorkerView { held_by: None, ..self.workers[n] }
                    } else {
                        self.workers[n]
                    },
            ),
            reservations: self.reservations.remove_keys(ids),
            ..self
        }
    }

    /// The reservations that are past their time.
    pub open spec fn stale(self, at: u64) -> Set<Seq<char>> {
        self.reservations.dom().filter(|id: Seq<char>| self.reservations[id].expires_at <= at)
    }
}

/// A lifetime of no time at all would expire every grant the instant it was made.
pub open spec fn lasting(lifetime: u64) -> u64 {
    if lifetime == 0 {
        1
    } else {
        lifetime
    }
}

proof fn lemma_close_one_more(f: FleetView, ids: Set<Seq<char>>, id: Seq<char>)
    requires
        f.reservations.dom().contains(id),
        !ids.contains(id),
    ensures
        f.closed(ids).closed(set![id]) == f.closed(ids.insert(id)),
{
    let a = f.closed(ids).closed(set![id]);
    let b = f.closed(ids.insert(id));
    assert(a.reservations =~= b.reservations);
    assert forall|n: Seq<char>| #[trigger] a.workers.dom().contains(n) implies a.workers[n]
        == b.workers[n] by {
        let mid = f.closed(ids);
        assert(mid.reservations[id] == f.reservations[id]);
        if f.named_by(ids, n) {
            let w = choose|w: Seq<char>|
                ids.contains(w) && f.reservations.dom().contains(w)
                    && #[trigger] f.reservations[w].workers.contains(n);
            assert(ids.insert(id).contains(w));
            assert(f.reservations[w].workers.contains(n));
        }
        if mid.named_by(set![id], n) {
            assert(ids.insert(id).contains(id));
            assert(f.reservations[id].workers.contains(n));
        }
        if f.named_by(ids.insert(id), n) {
            let w = choose|w: Seq<char>|
                ids.insert(id).contains(w) && f.reservations.dom().contains(w)
                    && #[trigger] f.reservations[w].workers.contains(n);
            if w == id {
                assert(set![id].contains(id));
                assert(mid.reservations[id].workers.contains(n));
            } else {
                assert(f.reservations[w].workers.contains(n));
            }
        }
    }
    assert(a.workers =~= b.workers);
}

/// What allocating produced: the machines, and the reservation holding them.
#[derive(Debug)]
pub struct Allocation {
    pub reservation: String,
    pub workers: Vec<Worker>,
    pub limits: Limits,
    pub expires_in: u64,
}

/// A reservation that has ended, released or expired, and what it cost.
#[derive(Debug)]
pub struct Closed {
    pub reservation: Reservation,
    pub minutes: u64,
    pub credits: u64,
}

impl Closed {
    /// Does this bill a reservation that ended at `at`?
    pub open spec fn bills(self, reservation: ReservationView, at: u64) -> bool {
        &&& self.reservation@ == reservation
        &&& self.minutes == minutes_held(reservation.started_at as nat, at as nat)
        &&& self.credits == reservation.cost_by(at as nat)
    }

    pub fn id(&self) -> (r: &str)
        ensures
            r@ == self.reservation@.id,
    {
        self.reservation.id.as_str()
    }

    pub fn alias(&self) -> (r: &str)
        ensures
            r@ == self.reservation@.alias,
    {
        self.reservation.alias.as_str()
    }

    pub fn tenant(&self) -> (r: &str)
        ensures
            r@ == self.reservation@.tenant,
    {
        self.reservation.tenant.as_str()
    }

    pub fn workers(&self) -> (r: &[String])
        ensures
            text::texts(r@) == self.reservation@.workers,
    {
        self.reservation.workers.as_slice()
    }
}

/// What a list of machines is.
pub open spec fn machines(workers: Seq<Worker>) -> Seq<WorkerView> {
    workers.map_values(|w: Worker| w@)
}

/// The seconds since the epoch: `std::time::SystemTime`, or nought for a clock set before
/// it. Nothing is claimed of it.
#[verifier::external_body]
pub fn now() -> u64 {
    std::time::SystemTime::now()
        .duration_since(std::time::UNIX_EPOCH)
        .map(|d| d.as_secs())
        .unwrap_or_default()
}

/// Puts the machines of a list into one hand, or into none.
fn hold(workers: &mut Table<Worker>, names: &[String], by: Option<&String>)
    requires
        forall|n: Seq<char>| #[trigger]
            old(workers).dict().dom().contains(n) ==> old(workers).dict()[n].name == n,
    ensures
        final(workers).dict() == holding(
            old(workers).dict(),
            text::texts(names@),
            match by {
                Some(id) => Some(id@),
                None => None,
            },
        ),
{
    let ghost before = workers.dict();
    let ghost all = text::texts(names@);
    let ghost hand = match by {
        Some(id) => Some(id@),
        None => None,
    };
    let mut i: usize = 0;
    proof {
        assert(holding(before, all.take(0), hand) =~= before);
    }
    while i < names.len()
        invariant
            i <= names@.len(),
            all == text::texts(names@),
            hand == match by {
                Some(id) => Some(id@),
                None => None,
            },
            forall|n: Seq<char>| #[trigger] before.dom().contains(n) ==> before[n].name == n,
            workers.dict() == holding(before, all.take(i as int), hand),
        decreases names@.len() - i,
    {
        let ghost had = workers.dict();
        let ghost name = all[i as int];
        assert(name == names@[i as int]@);
        proof {
            assert forall|n: Seq<char>| #[trigger] all.take(i as int + 1).contains(n) == (all.take(
                i as int,
            ).contains(n) || n == name) by {
                table::lemma_take_contains(all, i as int, n);
            }
        }
        match workers.remove(names[i].as_str()) {
            Some(mut worker) => {
                worker.held_by = match by {
                    Some(id) => Some(id.clone()),
                    None => None,
                };
                proof {
                    assert(worker@ =~= WorkerView { held_by: hand, ..before[name] });
                }
                workers.insert(names[i].clone(), worker);
                proof {
                    assert(workers.dict() =~= holding(before, all.take(i as int + 1), hand));
                }
            },
            None => {
                proof {
                    assert(had.remove(name) =~= had);
                    assert(workers.dict() =~= holding(before, all.take(i as int + 1), hand));
                }
            },
        }
        i = i + 1;
    }
    assert(all.take(i as int) =~= all);
}

impl Fleet {
    pub fn arrive(&mut self, worker: Worker)
        requires
            old(self).wf(),
        ensures
            final(self).wf(),
            final(self)@ == old(self)@.arrived(worker@),
    {
        let name = worker.name.clone();
        self.workers.insert(name, worker);
    }

    pub fn depart(&mut self, name: &str)
        requires
            old(self).wf(),
        ensures
            final(self).wf(),
            final(self)@ == old(self)@.departed(name@),
    {
        let ghost before = self@;
        let _ = self.workers.remove(name);
        // Any reservation naming it keeps its other machines; the caller learns when a dial
        // fails, which is a clearer signal than silently shrinking a grant they were told of.
        let ghost rows = self.reservations@;
        let total = self.reservations.len();
        let mut kept: Table<Reservation> = Table::new();
        let mut i: usize = 0;
        assert(table::keys_of(rows.take(0)) =~= Set::<Seq<char>>::empty());
        while i < total
            invariant
                rows == self.reservations@,
                total == rows.len(),
                i <= total,
                table::ascending(rows),
                table::dict_of(rows) == before.reservations,
                before.wf(),
                kept.dict().dom() == table::keys_of(rows.take(i as int)),
                forall|k: int|
                    0 <= k < i ==> kept.dict()[(#[trigger] rows[k]).0] == rows[k].1.without(name@),
            decreases total - i,
        {
            let reservation = self.reservations.value_at(i);
            let mut left: Vec<String> = Vec::new();
            let ghost named = reservation@.workers;
            let ghost other = other_than(name@);
            let mut k: usize = 0;
            proof {
                reveal(Seq::filter);
                assert(named.take(0).filter(other) =~= Seq::<Seq<char>>::empty());
            }
            while k < reservation.workers.len()
                invariant
                    k <= reservation.workers@.len(),
                    named == text::texts(reservation.workers@),
                    other == other_than(name@),
                    text::texts(left@) == named.take(k as int).filter(other),
                decreases reservation.workers@.len() - k,
            {
                proof {
                    reveal(Seq::filter);
                    assert(named.take(k as int + 1).drop_last() =~= named.take(k as int));
                    assert(named.take(k as int + 1).last() == reservation.workers@[k as int]@);
                }
                if !text::same(reservation.workers[k].as_str(), name) {
                    let w = reservation.workers[k].clone();
                    assert(text::texts(left@.push(w)) =~= text::texts(left@).push(w@));
                    left.push(w);
                }
                k = k + 1;
            }
            proof {
                assert(named.take(k as int) =~= named);
                table::lemma_entry(rows, i as int);
                table::lemma_keys_grow(rows, i as int);
            }
            let ghost had = kept.dict();
            let id = reservation.id.clone();
            let less = Reservation {
                id: reservation.id.clone(),
                caller: reservation.caller.clone(),
                alias: reservation.alias.clone(),
                tenant: reservation.tenant.clone(),
                workers: left,
                rate: reservation.rate,
                started_at: reservation.started_at,
                expires_at: reservation.expires_at,
            };
            proof {
                assert(less@ =~= rows[i as int].1.without(name@));
                assert(id@ == rows[i as int].0);
            }
            kept.insert(id, less);
            proof {
                assert(kept.dict().dom() =~= table::keys_of(rows.take(i as int + 1)));
                assert forall|k: int| 0 <= k < i + 1 implies kept.dict()[(#[trigger] rows[k]).0]
                    == rows[k].1.without(name@) by {
                    if k < i {
                        assert(text::precedes(rows[k].0, rows[i as int].0));
                        text::lemma_precedes_irreflexive(rows[i as int].0);
                    }
                }
            }
            i = i + 1;
        }
        proof {
            assert(rows.take(i as int) =~= rows);
            let want = before.reservations.map_values(|r: ReservationView| r.without(name@));
            assert forall|id: Seq<char>| #[trigger] want.dom().contains(id) implies kept.dict()[id]
                == want[id] by {
                assert(table::has_key(rows, id));
                let k = choose|k: int| 0 <= k < rows.len() && #[trigger] rows[k].0 == id;
                table::lemma_entry(rows, k);
            }
            assert(kept.dict() =~= want);
        }
        self.reservations = kept;
        proof {
            assert(self@ =~= before.departed(name@));
            assert forall|id: Seq<char>| #[trigger] self@.reservations.dom().contains(id) implies self@.reservations[id].id
                == id && self@.given_out(id) by {
                assert(before.reservations.dom().contains(id));
                assert(before.given_out(id));
            }
        }
    }

    /// Take `count` machines matching the plea's capabilities, and hold them, as of now.
    ///
    /// `lifetime` comes from the *tenant's* policy, and with a policy per tenant there is no
    /// single number the fleet could own.
    pub fn allocate(
        &mut self,
        nivedana: &Nivedana,
        count: u32,
        caller: &str,
        alias: &str,
        tenant: &str,
        lifetime: u64,
    ) -> (r: Result<Allocation, Shortfall>)
        requires
            old(self).wf(),
            old(self)@.chosen(text::texts(nivedana.capabilities@), count as nat) is Machines
                ==> old(self)@.issued < u64::MAX,
        ensures
            final(self).wf(),
            exists|at: u64| #[trigger]
                allocated(
                    old(self)@,
                    final(self)@,
                    r,
                    text::texts(nivedana.capabilities@),
                    count,
                    caller@,
                    alias@,
                    tenant@,
                    lifetime,
                    at,
                ),
    {
        let at = now();
        self.allocate_at(nivedana, count, caller, alias, tenant, lifetime, at)
    }

    /// Take machines and hold them, as of `at`.
    pub fn allocate_at(
        &mut self,
        nivedana: &Nivedana,
        count: u32,
        caller: &str,
        alias: &str,
        tenant: &str,
        lifetime: u64,
        at: u64,
    ) -> (r: Result<Allocation, Shortfall>)
        requires
            old(self).wf(),
            old(self)@.chosen(text::texts(nivedana.capabilities@), count as nat) is Machines
                ==> old(self)@.issued < u64::MAX,
        ensures
            final(self).wf(),
            allocated(
                old(self)@,
                final(self)@,
                r,
                text::texts(nivedana.capabilities@),
                count,
                caller@,
                alias@,
                tenant@,
                lifetime,
                at,
            ),
    {
        let ghost before = self@;
        let lifetime: u64 = if lifetime == 0 { 1 } else { lifetime };
        let chosen = match self.select(nivedana.capabilities.as_slice(), count) {
            Ok(names) => names,
            Err(short) => {
                return Err(short);
            },
        };
        let ghost names = text::texts(chosen@);
        let rate = self.rate_of(chosen.as_slice());
        self.next = self.next + 1;
        let mut id = String::from_str("r");
        id.append(text::decimal(self.next).as_str());
        assert(id@ == reservation_id(before.issued + 1));
        let expires_at = match at.checked_add(lifetime) {
            Some(then) => then,
            None => u64::MAX,
        };
        hold(&mut self.workers, chosen.as_slice(), Some(&id));
        proof {
            assert forall|n: Seq<char>| #[trigger] self.workers.dict().dom().contains(n) implies self.workers.dict()[n].name
                == n by {
                assert(before.workers.dom().contains(n));
            }
        }
        let mut workers: Vec<Worker> = Vec::new();
        let mut i: usize = 0;
        proof {
            self.lemma_chosen_here(before, text::texts(nivedana.capabilities@), count as nat, names, id@);
        }
        while i < chosen.len()
            invariant
                i <= chosen@.len(),
                names == text::texts(chosen@),
                forall|k: int| 0 <= k < names.len() ==> self.workers.dict().dom().contains(#[trigger] names[k]),
                machines(workers@) == names.take(i as int).map_values(
                    |n: Seq<char>| self.workers.dict()[n],
                ),
            decreases chosen@.len() - i,
        {
            assert(names[i as int] == chosen@[i as int]@);
            if let Some(worker) = self.workers.get(chosen[i].as_str()) {
                let worker = worker.copied();
                proof {
                    assert(machines(workers@.push(worker)) =~= machines(workers@).push(worker@));
                    assert(names.take(i as int + 1) =~= names.take(i as int).push(names[i as int]));
                    assert(names.take(i as int + 1).map_values(
                        |n: Seq<char>| self.workers.dict()[n],
                    ) =~= names.take(i as int).map_values(
                        |n: Seq<char>| self.workers.dict()[n],
                    ).push(worker@));
                }
                workers.push(worker);
            }
            i = i + 1;
        }
        assert(names.take(i as int) =~= names);
        let reservation = Reservation {
            id: id.clone(),
            caller: caller.to_owned(),
            alias: alias.to_owned(),
            tenant: tenant.to_owned(),
            workers: chosen,
            rate,
            started_at: at,
            expires_at,
        };
        self.reservations.insert(id.clone(), reservation);
        proof {
            assert(self@ =~= before.granted(
                names,
                caller@,
                alias@,
                tenant@,
                lifetime as nat,
                at,
            ));
            assert forall|q: Seq<char>| #[trigger] self@.reservations.dom().contains(q) implies self@.reservations[q].id
                == q && self@.given_out(q) by {
                if q == id@ {
                    assert(q == reservation_id(self@.issued));
                } else {
                    assert(before.reservations.dom().contains(q));
                    assert(before.given_out(q));
                    let n = choose|n: nat|
                        1 <= n <= before.issued && q == #[trigger] reservation_id(n);
                    assert(q == reservation_id(n));
                }
            }
            assert(self@.workers.dom() =~= before.workers.dom());
            assert(self@.reservations.dom() =~= before.reservations.dom().insert(id@));
        }
        Ok(
            Allocation {
                reservation: id,
                workers,
                limits: Limits { max_seconds: lifetime },
                expires_in: lifetime,
            },
        )
    }

    proof fn lemma_chosen_here(
        &self,
        before: FleetView,
        wanted: Seq<Seq<char>>,
        count: nat,
        names: Seq<Seq<char>>,
        id: Seq<char>,
    )
        requires
            before.chosen(wanted, count) == Chosen::Machines(names),
            before.workers.dom().finite(),
            self.workers.dict() == holding(before.workers, names, Some(id)),
        ensures
            forall|k: int| 0 <= k < names.len() ==> self.workers.dict().dom().contains(#[trigger] names[k]),
    {
        let ranking = before.ranking(wanted);
        lemma_ranking(before, wanted);
        assert forall|k: int| 0 <= k < names.len() implies self.workers.dict().dom().contains(
            #[trigger] names[k],
        ) by {
            assert(names[k] == ranking[k]);
            assert(before.candidate(wanted, ranking[k]));
        }
    }
}

/// What allocating as of `at` did, and what it returned.
pub open spec fn allocated(
    before: FleetView,
    after: FleetView,
    result: Result<Allocation, Shortfall>,
    wanted: Seq<Seq<char>>,
    count: u32,
    caller: Seq<char>,
    alias: Seq<char>,
    tenant: Seq<char>,
    lifetime: u64,
    at: u64,
) -> bool {
    match result {
        Ok(allocation) => match before.chosen(wanted, count as nat) {
            Chosen::Machines(names) => {
                &&& after == before.granted(
                    names,
                    caller,
                    alias,
                    tenant,
                    lasting(lifetime) as nat,
                    at,
                )
                &&& allocation.reservation@ == reservation_id(after.issued)
                &&& machines(allocation.workers@) == names.map_values(
                    |n: Seq<char>| after.workers[n],
                )
                &&& allocation.limits.max_seconds == lasting(lifetime)
                &&& allocation.expires_in == lasting(lifetime)
            },
            _ => false,
        },
        Err(short) => after == before && says(short, wanted, before.chosen(wanted, count as nat)),
    }
}

/// What releasing as of `at` did, and what it returned.
pub open spec fn released(
    before: FleetView,
    after: FleetView,
    result: Result<Closed, String>,
    id: Seq<char>,
    caller: Seq<char>,
    at: u64,
) -> bool {
    if !before.reservations.dom().contains(id) {
        &&& after == before
        &&& result matches Err(why)
        &&& why@ == "no reservation "@ + id
    } else if before.reservations[id].caller != caller {
        &&& after == before
        &&& result matches Err(why)
        &&& why@ == id + " was not granted to you"@
    } else {
        &&& after == before.closed(set![id])
        &&& result matches Ok(closed)
        &&& closed.bills(before.reservations[id], at)
    }
}

/// What each reservation that ended was billed, under its id.
pub open spec fn bills(closed: Seq<Closed>) -> Seq<(Seq<char>, Closed)> {
    closed.map_values(|c: Closed| (c.reservation@.id, c))
}

/// What expiring as of `at` did, and what it returned: everything past its time is over,
/// and each is billed, by ascending id.
pub open spec fn expired(before: FleetView, after: FleetView, result: Seq<Closed>, at: u64) -> bool {
    &&& after == before.closed(before.stale(at))
    &&& table::ascending(bills(result))
    &&& table::keys_of(bills(result)) == before.stale(at)
    &&& forall|i: int|
        0 <= i < result.len() ==> (#[trigger] result[i]).bills(
            before.reservations[result[i].reservation@.id],
            at,
        )
}

impl Fleet {
    /// Give the machines back, and say what it cost.
    ///
    /// One place, so a released reservation and an expired one are billed the same way: a
    /// caller who walks away pays for the time they held.
    fn close(&mut self, id: &str, at: u64) -> (r: Option<Closed>)
        requires
            old(self).wf(),
        ensures
            final(self).wf(),
            match r {
                Some(closed) => {
                    &&& old(self)@.reservations.dom().contains(id@)
                    &&& final(self)@ == old(self)@.closed(set![id@])
                    &&& closed.bills(old(self)@.reservations[id@], at)
                },
                None => !old(self)@.reservations.dom().contains(id@) && final(self)@ == old(self)@,
            },
    {
        let ghost before = self@;
        let reservation = match self.reservations.remove(id) {
            Some(reservation) => reservation,
            None => {
                assert(before.reservations.remove(id@) =~= before.reservations);
                return None;
            },
        };
        hold(&mut self.workers, reservation.workers.as_slice(), None);
        proof {
            let after = before.closed(set![id@]);
            assert(self@.reservations =~= after.reservations);
            assert forall|n: Seq<char>| #[trigger] before.workers.dom().contains(n) implies self@.workers[n]
                == after.workers[n] by {
                if before.reservations[id@].workers.contains(n) {
                    assert(set![id@].contains(id@));
                    assert(before.named_by(set![id@], n));
                }
            }
            assert(self@.workers =~= after.workers);
            assert(self@ =~= after);
            lemma_closed_wf(before, set![id@]);
        }
        let credits = reservation.cost_by(at);
        let minutes = minutes(reservation.started_at, at);
        Some(Closed { reservation, minutes, credits })
    }

    /// Give a reservation back, as of now. Returns what was freed, so the controller can
    /// tell each machine.
    ///
    /// `caller` must be the key the reservation was granted to: a release is an instruction
    /// about someone else's capacity if anyone may send it.
    pub fn release(&mut self, id: &str, caller: &str) -> (r: Result<Closed, String>)
        requires
            old(self).wf(),
        ensures
            final(self).wf(),
            exists|at: u64| #[trigger]
                released(old(self)@, final(self)@, r, id@, caller@, at),
    {
        let at = now();
        self.release_at(id, caller, at)
    }

    /// Give a reservation back, as of `at`.
    pub fn release_at(&mut self, id: &str, caller: &str, at: u64) -> (r: Result<Closed, String>)
        requires
            old(self).wf(),
        ensures
            final(self).wf(),
            released(old(self)@, final(self)@, r, id@, caller@, at),
    {
        let held = match self.reservations.get(id) {
            Some(reservation) => text::same(reservation.caller.as_str(), caller),
            None => {
                let mut why = String::from_str("no reservation ");
                why.append(id);
                return Err(why);
            },
        };
        if !held {
            let mut why = id.to_owned();
            why.append(" was not granted to you");
            return Err(why);
        }
        match self.close(id, at) {
            Some(closed) => Ok(closed),
            None => Err(String::new()),
        }
    }

    /// Free everything past its expiry, as of now. The backstop.
    pub fn expire(&mut self) -> (r: Vec<Closed>)
        requires
            old(self).wf(),
        ensures
            final(self).wf(),
            exists|at: u64| #[trigger] expired(old(self)@, final(self)@, r@, at),
    {
        let at = now();
        self.expire_at(at)
    }

    /// Free everything whose time has come at `at`.
    pub fn expire_at(&mut self, at: u64) -> (r: Vec<Closed>)
        requires
            old(self).wf(),
        ensures
            final(self).wf(),
            expired(old(self)@, final(self)@, r@, at),
    {
        let ghost before = self@;
        let ghost rows = self.reservations@;
        let total = self.reservations.len();
        let mut ids: Vec<String> = Vec::new();
        let mut i: usize = 0;
        while i < total
            invariant
                rows == self.reservations@,
                total == rows.len(),
                i <= total,
                before == self@,
                before.wf(),
                table::ascending(rows),
                table::dict_of(rows) == before.reservations,
                forall|a: int, b: int|
                    0 <= a < b < ids@.len() ==> text::precedes(
                        (#[trigger] ids@[a])@,
                        (#[trigger] ids@[b])@,
                    ),
                forall|a: int| 0 <= a < ids@.len() ==> before.stale(at).contains((#[trigger] ids@[a])@),
                forall|a: int|
                    0 <= a < ids@.len() ==> exists|k: int|
                        0 <= k < i && (#[trigger] rows[k]).0 == (#[trigger] ids@[a])@,
                forall|k: int|
                    0 <= k < i && before.stale(at).contains((#[trigger] rows[k]).0) ==> text::texts(
                        ids@,
                    ).contains(rows[k].0),
            decreases total - i,
        {
            let reservation = self.reservations.value_at(i);
            proof {
                table::lemma_entry(rows, i as int);
            }
            let ghost had = ids@;
            if reservation.expires_at <= at {
                let id = reservation.id.clone();
                ids.push(id);
                proof {
                    assert(id@ == rows[i as int].0);
                    assert forall|a: int, b: int| 0 <= a < b < ids@.len() implies text::precedes(
                        (#[trigger] ids@[a])@,
                        (#[trigger] ids@[b])@,
                    ) by {
                        assert(ids@[a] == had[a]);
                        if b < had.len() {
                            assert(ids@[b] == had[b]);
                        } else {
                            let k = choose|k: int|
                                0 <= k < i && (#[trigger] rows[k]).0 == (#[trigger] had[a])@;
                            assert(text::precedes(rows[k].0, rows[i as int].0));
                        }
                    }
                    assert forall|a: int| 0 <= a < ids@.len() implies exists|k: int|
                        0 <= k < i + 1 && (#[trigger] rows[k]).0 == (#[trigger] ids@[a])@ by {
                        if a < had.len() {
                            assert(ids@[a] == had[a]);
                            let k = choose|k: int|
                                0 <= k < i && (#[trigger] rows[k]).0 == (#[trigger] had[a])@;
                            assert(rows[k].0 == ids@[a]@);
                        } else {
                            assert(rows[i as int].0 == ids@[a]@);
                        }
                    }
                    assert forall|k: int| 0 <= k < i + 1 && before.stale(at).contains(
                        (#[trigger] rows[k]).0,
                    ) implies text::texts(ids@).contains(rows[k].0) by {
                        if k < i {
                            let a = choose|a: int|
                                0 <= a < text::texts(had).len() && text::texts(had)[a] == rows[k].0;
                            assert(text::texts(ids@)[a] == rows[k].0);
                        } else {
                            assert(text::texts(ids@)[had.len() as int] == rows[k].0);
                        }
                    }
                }
            } else {
                assert(!before.stale(at).contains(rows[i as int].0));
            }
            i = i + 1;
        }
        let ghost named = text::texts(ids@);
        proof {
            assert(named.to_set() =~= before.stale(at)) by {
                assert forall|id: Seq<char>| before.stale(at).contains(id) implies named.contains(
                    id,
                ) by {
                    assert(table::has_key(rows, id));
                    let k = choose|k: int| 0 <= k < rows.len() && #[trigger] rows[k].0 == id;
                    assert(before.stale(at).contains(rows[k].0));
                }
                assert forall|id: Seq<char>| named.contains(id) implies before.stale(at).contains(
                    id,
                ) by {
                    let a = choose|a: int| 0 <= a < named.len() && named[a] == id;
                    assert(ids@[a]@ == id);
                }
            }
            assert(named.take(0).to_set() =~= Set::<Seq<char>>::empty());
            assert(before.closed(Set::empty()) =~= before) by {
                assert(before.reservations.remove_keys(Set::empty()) =~= before.reservations);
                assert forall|n: Seq<char>| !before.named_by(Set::empty(), n) by {}
                assert(before.closed(Set::empty()).workers =~= before.workers);
            }
        }
        let mut r: Vec<Closed> = Vec::new();
        let mut i: usize = 0;
        while i < ids.len()
            invariant
                i <= ids@.len(),
                named == text::texts(ids@),
                before.wf(),
                self.wf(),
                forall|a: int, b: int|
                    0 <= a < b < ids@.len() ==> text::precedes(
                        (#[trigger] ids@[a])@,
                        (#[trigger] ids@[b])@,
                    ),
                forall|a: int| 0 <= a < ids@.len() ==> before.stale(at).contains((#[trigger] ids@[a])@),
                self@ == before.closed(named.take(i as int).to_set()),
                r@.len() == i,
                forall|k: int|
                    0 <= k < i ==> (#[trigger] r@[k]).bills(before.reservations[ids@[k]@], at),
            decreases ids@.len() - i,
        {
            let ghost gone = named.take(i as int).to_set();
            let ghost id = named[i as int];
            proof {
                assert(ids@[i as int]@ == id);
                assert(before.stale(at).contains(id));
                assert(!gone.contains(id)) by {
                    if named.take(i as int).contains(id) {
                        let k = choose|k: int| 0 <= k < i && named.take(i as int)[k] == id;
                        assert(ids@[k]@ == id);
                        text::lemma_precedes_irreflexive(id);
                        assert(text::precedes(ids@[k]@, ids@[i as int]@));
                    }
                }
                assert(self@.reservations.dom().contains(id));
                lemma_close_one_more(before, gone, id);
                assert(named.take(i as int + 1).to_set() =~= gone.insert(id)) by {
                    assert forall|q: Seq<char>| named.take(i as int + 1).contains(q) == (
                    named.take(i as int).contains(q) || q == id) by {
                        table::lemma_take_contains(named, i as int, q);
                    }
                }
            }
            if let Some(closed) = self.close(ids[i].as_str(), at) {
                r.push(closed);
            }
            i = i + 1;
        }
        proof {
            assert(named.take(i as int) =~= named);
            let told = bills(r@);
            assert forall|k: int| 0 <= k < r@.len() implies (#[trigger] r@[k]).reservation@.id
                == ids@[k]@ by {
                assert(r@[k].bills(before.reservations[ids@[k]@], at));
                assert(before.stale(at).contains(ids@[k]@));
            }
            assert forall|a: int, b: int| 0 <= a < b < told.len() implies text::precedes(
                (#[trigger] told[a]).0,
                (#[trigger] told[b]).0,
            ) by {
                assert(r@[a].reservation@.id == ids@[a]@);
                assert(r@[b].reservation@.id == ids@[b]@);
            }
            assert(table::keys_of(told) =~= before.stale(at)) by {
                assert forall|q: Seq<char>| #[trigger] table::has_key(told, q) == named.contains(q) by {
                    if table::has_key(told, q) {
                        let k = choose|k: int| 0 <= k < told.len() && #[trigger] told[k].0 == q;
                        assert(r@[k].reservation@.id == ids@[k]@);
                        assert(named[k] == q);
                    }
                    if named.contains(q) {
                        let k = choose|k: int| 0 <= k < named.len() && named[k] == q;
                        assert(r@[k].reservation@.id == ids@[k]@);
                        assert(told[k].0 == q);
                    }
                }
            }
        }
        r
    }

    /// What is here, for the operator and not for a caller: how many machines, how many of
    /// them free, and everything that any of them can do.
    pub fn summary(&self) -> (r: (u32, u32, Vec<String>))
        requires
            self.wf(),
        ensures
            r.0 == self@.workers.dom().len() as u32,
            r.1 == self@.free_count() as u32,
            text::texts(r.2@) == self@.abilities(),
    {
        let ghost rows = self.workers@;
        let total = self.workers.len();
        let mut all: Table<bool> = Table::new();
        let mut i: usize = 0;
        while i < total
            invariant
                rows == self.workers@,
                total == rows.len(),
                i <= total,
                table::ascending(rows),
                forall|c: Seq<char>| #[trigger]
                    all.dict().dom().contains(c) == exists|k: int|
                        0 <= k < i && (#[trigger] rows[k]).1.capabilities.contains(c),
            decreases total - i,
        {
            let worker = self.workers.value_at(i);
            let ghost had = all.dict().dom();
            let ghost caps = worker@.capabilities;
            let mut k: usize = 0;
            while k < worker.capabilities.len()
                invariant
                    k <= worker.capabilities@.len(),
                    caps == text::texts(worker.capabilities@),
                    forall|c: Seq<char>| #[trigger]
                        all.dict().dom().contains(c) == (had.contains(c) || caps.take(
                            k as int,
                        ).contains(c)),
                decreases worker.capabilities@.len() - k,
            {
                all.insert(worker.capabilities[k].clone(), true);
                proof {
                    assert forall|c: Seq<char>| #[trigger] all.dict().dom().contains(c) == (had.contains(
                        c,
                    ) || caps.take(k as int + 1).contains(c)) by {
                        table::lemma_take_contains(caps, k as int, c);
                    }
                }
                k = k + 1;
            }
            proof {
                assert(caps.take(k as int) =~= caps);
                assert forall|c: Seq<char>| #[trigger] all.dict().dom().contains(c) == exists|k: int|
                    0 <= k < i + 1 && (#[trigger] rows[k]).1.capabilities.contains(c) by {
                    if had.contains(c) {
                        let k = choose|k: int|
                            0 <= k < i && (#[trigger] rows[k]).1.capabilities.contains(c);
                        assert(rows[k].1.capabilities.contains(c));
                    }
                    if caps.contains(c) {
                        assert(rows[i as int].1.capabilities.contains(c));
                    }
                    if exists|k: int|
                        0 <= k < i + 1 && (#[trigger] rows[k]).1.capabilities.contains(c) {
                        let k = choose|k: int|
                            0 <= k < i + 1 && (#[trigger] rows[k]).1.capabilities.contains(c);
                        if k < i {
                            assert(rows[k].1.capabilities.contains(c));
                        }
                    }
                }
            }
            i = i + 1;
        }
        let mut capabilities: Vec<String> = Vec::new();
        let many = all.len();
        let mut k: usize = 0;
        while k < many
            invariant
                k <= many,
                many == all@.len(),
                table::ascending(all@),
                capabilities@.len() == k,
                forall|a: int| 0 <= a < k ==> (#[trigger] capabilities@[a])@ == all@[a].0,
            decreases many - k,
        {
            capabilities.push(all.key_at(k).clone());
            k = k + 1;
        }
        proof {
            table::lemma_keys_finite(rows);
            assert forall|c: Seq<char>| #[trigger]
                text::texts(capabilities@).contains(c) == self@.offers(c) by {
                if text::texts(capabilities@).contains(c) {
                    let a = choose|a: int|
                        0 <= a < text::texts(capabilities@).len() && text::texts(capabilities@)[a] == c;
                    assert(all@[a].0 == c);
                    assert(all.dict().dom().contains(c));
                    let k = choose|k: int|
                        0 <= k < rows.len() && (#[trigger] rows[k]).1.capabilities.contains(c);
                    table::lemma_entry(rows, k);
                    assert(self@.workers[rows[k].0].capabilities.contains(c));
                }
                if exists|n: Seq<char>|
                    self@.workers.dom().contains(n)
                        && #[trigger] self@.workers[n].capabilities.contains(c) {
                    let n = choose|n: Seq<char>|
                        self@.workers.dom().contains(n)
                            && #[trigger] self@.workers[n].capabilities.contains(c);
                    assert(table::has_key(rows, n));
                    let k = choose|k: int| 0 <= k < rows.len() && #[trigger] rows[k].0 == n;
                    table::lemma_entry(rows, k);
                    assert(rows[k].1.capabilities.contains(c));
                    assert(all.dict().dom().contains(c));
                    assert(table::has_key(all@, c));
                    let a = choose|a: int| 0 <= a < all@.len() && #[trigger] all@[a].0 == c;
                    assert(text::texts(capabilities@)[a] == c);
                }
            }
            self@.lemma_abilities(text::texts(capabilities@));
        }
        (total as u32, self.free() as u32, capabilities)
    }
}

pub proof fn lemma_closed_wf(f: FleetView, ids: Set<Seq<char>>)
    requires
        f.wf(),
    ensures
        f.closed(ids).wf(),
{
    let g = f.closed(ids);
    assert(g.workers.dom() =~= f.workers.dom());
    assert(g.reservations.dom() =~= f.reservations.dom().difference(ids));
    assert forall|id: Seq<char>| #[trigger] g.reservations.dom().contains(id) implies g.reservations[id].id
        == id && g.given_out(id) by {
        assert(f.reservations.dom().contains(id));
        assert(f.given_out(id));
        let n = choose|n: nat| 1 <= n <= f.issued && id == #[trigger] reservation_id(n);
        assert(id == reservation_id(n));
    }
}

} // verus!
