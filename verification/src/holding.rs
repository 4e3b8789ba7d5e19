//! What holds of every fleet: who has which machine, what it is charged, and what giving
//! it back undoes.

use vstd::prelude::*;

use crate::budget;
use crate::fleet::{
    self, Allocation, Chosen, Closed, FleetView, ReservationView, Shortfall, WorkerView,
};
use crate::table;
use crate::text;

verus! {

impl FleetView {
    /// A machine is held by exactly the reservation that names it, and no reservation names
    /// a machine twice.
    pub open spec fn exclusive(self) -> bool {
        &&& forall|id: Seq<char>, n: Seq<char>|
            self.reservations.dom().contains(id) && self.workers.dom().contains(n)
                && #[trigger] self.reservations[id].workers.contains(n)
                ==> self.workers[n].held_by == Some(id)
        &&& forall|n: Seq<char>| #[trigger]
            self.workers.dom().contains(n) && self.workers[n].held_by is Some ==> {
                let id = self.workers[n].held_by->0;
                self.reservations.dom().contains(id) && self.reservations[id].workers.contains(n)
            }
        &&& forall|id: Seq<char>| #[trigger]
            self.reservations.dom().contains(id) ==> self.reservations[id].workers.no_duplicates()
    }

    /// Does any reservation name this machine?
    pub open spec fn spoken_for(self, name: Seq<char>) -> bool {
        exists|id: Seq<char>|
            self.reservations.dom().contains(id)
                && #[trigger] self.reservations[id].workers.contains(name)
    }
}

// ---------------------------------------------------------------------------
// one machine serves one reservation
// ---------------------------------------------------------------------------

/// In an exclusive fleet no machine that is here serves two reservations.
pub proof fn law_one_machine_serves_one_reservation(
    f: FleetView,
    n: Seq<char>,
    a: Seq<char>,
    b: Seq<char>,
)
    requires
        f.exclusive(),
        f.workers.dom().contains(n),
        f.reservations.dom().contains(a),
        f.reservations.dom().contains(b),
        f.reservations[a].workers.contains(n),
        f.reservations[b].workers.contains(n),
    ensures
        a == b,
{
}

/// A fleet with nothing in it is exclusive.
pub proof fn law_an_empty_fleet_is_exclusive()
    ensures
        FleetView::empty().exclusive(),
{
}

/// An arriving machine that nobody holds and no reservation names keeps a fleet exclusive.
pub proof fn law_arriving_keeps_machines_exclusive(f: FleetView, worker: WorkerView)
    requires
        f.exclusive(),
        worker.held_by is None,
        !f.spoken_for(worker.name),
    ensures
        f.arrived(worker).exclusive(),
{
    let g = f.arrived(worker);
    assert forall|id: Seq<char>, n: Seq<char>|
        g.reservations.dom().contains(id) && g.workers.dom().contains(n)
            && #[trigger] g.reservations[id].workers.contains(n) implies g.workers[n].held_by == Some(
        id,
    ) by {
        assert(f.reservations[id].workers.contains(n));
    }
}

/// A machine that leaves keeps a fleet exclusive.
pub proof fn law_departing_keeps_machines_exclusive(f: FleetView, name: Seq<char>)
    requires
        f.exclusive(),
    ensures
        f.departed(name).exclusive(),
{
    let g = f.departed(name);
    assert forall|id: Seq<char>| #[trigger] f.reservations.dom().contains(id) implies {
        &&& g.reservations[id].workers.no_duplicates()
        &&& forall|n: Seq<char>| #[trigger]
            g.reservations[id].workers.contains(n) == (f.reservations[id].workers.contains(n) && n
                != name)
    } by {
        lemma_filter(f.reservations[id].workers, name);
        assert(g.reservations[id] == f.reservations[id].without(name));
    }
    assert forall|id: Seq<char>, n: Seq<char>|
        g.reservations.dom().contains(id) && g.workers.dom().contains(n)
            && #[trigger] g.reservations[id].workers.contains(n) implies g.workers[n].held_by == Some(
        id,
    ) by {
        assert(f.reservations.dom().contains(id));
        assert(f.reservations[id].workers.contains(n));
    }
    assert forall|n: Seq<char>| #[trigger] g.workers.dom().contains(n) && g.workers[n].held_by is Some implies {
        let id = g.workers[n].held_by->0;
        g.reservations.dom().contains(id) && g.reservations[id].workers.contains(n)
    } by {
        assert(f.workers.dom().contains(n));
        let id = f.workers[n].held_by->0;
        assert(f.reservations.dom().contains(id));
    }
    assert forall|id: Seq<char>| #[trigger] g.reservations.dom().contains(id) implies g.reservations[id].workers.no_duplicates() by {
        assert(f.reservations.dom().contains(id));
    }
}

proof fn lemma_filter(s: Seq<Seq<char>>, name: Seq<char>)
    ensures
        ({
            let kept = s.filter(fleet::other_than(name));
            &&& forall|n: Seq<char>| #[trigger] kept.contains(n) == (s.contains(n) && n != name)
            &&& s.no_duplicates() ==> kept.no_duplicates()
        }),
    decreases s.len(),
{
    let other = fleet::other_than(name);
    reveal(Seq::filter);
    if s.len() > 0 {
        let rest = s.drop_last();
        lemma_filter(rest, name);
        let kept = s.filter(other);
        let less = rest.filter(other);
        assert forall|n: Seq<char>| #[trigger] kept.contains(n) == (s.contains(n) && n != name) by {
            table::lemma_take_contains(s, s.len() - 1, n);
            assert(s.take(s.len() - 1) =~= rest);
            assert(s.take(s.len() as int) =~= s);
            assert(less.contains(n) == (rest.contains(n) && n != name));
            if other(s.last()) {
                table::lemma_take_contains(kept, kept.len() - 1, n);
                assert(kept.take(kept.len() - 1) =~= less);
                assert(kept.take(kept.len() as int) =~= kept);
            }
        }
        if s.no_duplicates() {
            assert(rest.no_duplicates());
            if other(s.last()) {
                assert(!rest.contains(s.last())) by {
                    if rest.contains(s.last()) {
                        let k = choose|k: int| 0 <= k < rest.len() && rest[k] == s.last();
                        assert(s[k] == s[s.len() - 1]);
                    }
                }
                assert(!less.contains(s.last()));
                assert forall|i: int, j: int| 0 <= i < kept.len() && 0 <= j < kept.len() && i != j implies kept[i]
                    != kept[j] by {
                    if i < less.len() {
                        assert(less.contains(kept[i]));
                    }
                    if j < less.len() {
                        assert(less.contains(kept[j]));
                    }
                }
            }
        }
    } else {
        assert(s.filter(other) =~= s);
    }
}

/// What a choice names: machines that are here, free and able, each once, as many as asked.
pub proof fn law_a_choice_is_of_free_capable_machines(
    f: FleetView,
    wanted: Seq<Seq<char>>,
    count: nat,
    names: Seq<Seq<char>>,
)
    requires
        f.wf(),
        f.chosen(wanted, count) == Chosen::Machines(names),
    ensures
        names.len() == count,
        names.no_duplicates(),
        forall|n: Seq<char>| #[trigger] names.contains(n) ==> f.candidate(wanted, n),
{
    fleet::lemma_ranking(f, wanted);
    let ranking = f.ranking(wanted);
    assert forall|n: Seq<char>| #[trigger] names.contains(n) implies f.candidate(wanted, n) by {
        let i = choose|i: int| 0 <= i < names.len() && names[i] == n;
        assert(ranking[i] == n);
    }
    assert forall|i: int, j: int| 0 <= i < names.len() && 0 <= j < names.len() && i != j implies names[i]
        != names[j] by {
        text::lemma_precedes_irreflexive(names[i]);
        assert(ranking[i] == names[i] && ranking[j] == names[j]);
        if i < j {
            assert(f.goes_before(ranking[i], ranking[j]));
        } else {
            assert(f.goes_before(ranking[j], ranking[i]));
        }
    }
}

/// Granting what was chosen keeps a fleet exclusive.
pub proof fn law_granting_keeps_machines_exclusive(
    f: FleetView,
    wanted: Seq<Seq<char>>,
    count: nat,
    names: Seq<Seq<char>>,
    caller: Seq<char>,
    alias: Seq<char>,
    tenant: Seq<char>,
    lifetime: nat,
    at: u64,
)
    requires
        f.wf(),
        f.exclusive(),
        f.chosen(wanted, count) == Chosen::Machines(names),
    ensures
        f.granted(names, caller, alias, tenant, lifetime, at).exclusive(),
{
    law_a_choice_is_of_free_capable_machines(f, wanted, count, names);
    law_an_id_is_never_given_out_twice(f);
    let g = f.granted(names, caller, alias, tenant, lifetime, at);
    let new = fleet::reservation_id(f.issued + 1);
    assert forall|id: Seq<char>, n: Seq<char>|
        g.reservations.dom().contains(id) && g.workers.dom().contains(n)
            && #[trigger] g.reservations[id].workers.contains(n) implies g.workers[n].held_by == Some(
        id,
    ) by {
        if id != new {
            assert(f.reservations[id].workers.contains(n));
            assert(f.workers[n].held_by == Some(id));
            assert(!names.contains(n));
        }
    }
    assert forall|n: Seq<char>| #[trigger] g.workers.dom().contains(n) && g.workers[n].held_by is Some implies {
        let id = g.workers[n].held_by->0;
        g.reservations.dom().contains(id) && g.reservations[id].workers.contains(n)
    } by {
        assert(f.workers.dom().contains(n));
    }
}

/// Ending reservations keeps a fleet exclusive.
pub proof fn law_closing_keeps_machines_exclusive(f: FleetView, ids: Set<Seq<char>>)
    requires
        f.exclusive(),
    ensures
        f.closed(ids).exclusive(),
{
    let g = f.closed(ids);
    assert forall|id: Seq<char>, n: Seq<char>|
        g.reservations.dom().contains(id) && g.workers.dom().contains(n)
            && #[trigger] g.reservations[id].workers.contains(n) implies g.workers[n].held_by == Some(
        id,
    ) by {
        assert(f.reservations[id].workers.contains(n));
        assert(f.workers[n].held_by == Some(id));
        if f.named_by(ids, n) {
            let other = choose|other: Seq<char>|
                ids.contains(other) && f.reservations.dom().contains(other)
                    && #[trigger] f.reservations[other].workers.contains(n);
            assert(f.workers[n].held_by == Some(other));
        }
    }
    assert forall|n: Seq<char>| #[trigger] g.workers.dom().contains(n) && g.workers[n].held_by is Some implies {
        let id = g.workers[n].held_by->0;
        g.reservations.dom().contains(id) && g.reservations[id].workers.contains(n)
    } by {
        assert(f.workers.dom().contains(n));
        let id = f.workers[n].held_by->0;
        assert(f.reservations[id].workers.contains(n));
        if ids.contains(id) {
            assert(f.named_by(ids, n));
        }
    }
}

// ---------------------------------------------------------------------------
// identity
// ---------------------------------------------------------------------------

/// The next id to be given out is that of no open reservation.
pub proof fn law_an_id_is_never_given_out_twice(f: FleetView)
    requires
        f.wf(),
    ensures
        !f.reservations.dom().contains(fleet::reservation_id(f.issued + 1)),
{
    let new = fleet::reservation_id(f.issued + 1);
    if f.reservations.dom().contains(new) {
        assert(f.given_out(new));
        let n = choose|n: nat| 1 <= n <= f.issued && new == #[trigger] fleet::reservation_id(n);
        fleet::lemma_reservation_ids_differ(n, f.issued + 1);
    }
}

// ---------------------------------------------------------------------------
// price
// ---------------------------------------------------------------------------

/// Cheapest first: no machine that was chosen costs more than one that could have been.
pub proof fn law_the_cheapest_capable_machine_goes_first(
    f: FleetView,
    wanted: Seq<Seq<char>>,
    count: nat,
    names: Seq<Seq<char>>,
    taken: Seq<char>,
    left: Seq<char>,
)
    requires
        f.wf(),
        f.chosen(wanted, count) == Chosen::Machines(names),
        names.contains(taken),
        f.candidate(wanted, left),
        !names.contains(left),
    ensures
        f.workers[taken].rate <= f.workers[left].rate,
        f.goes_before(taken, left),
{
    fleet::lemma_ranking(f, wanted);
    let ranking = f.ranking(wanted);
    let i = choose|i: int| 0 <= i < names.len() && names[i] == taken;
    let j = choose|j: int| 0 <= j < ranking.len() && ranking[j] == left;
    assert(ranking[i] == taken);
    if j < names.len() {
        assert(names[j] == left);
    }
    assert(f.goes_before(ranking[i], ranking[j]));
}

/// Adding up the first `count` rates of a brief gives the price of `count` machines.
pub proof fn law_the_rates_of_a_brief_add_up_to_the_price(
    f: FleetView,
    wanted: Seq<Seq<char>>,
    count: nat,
    names: Seq<Seq<char>>,
    rates: Seq<u32>,
)
    requires
        f.wf(),
        f.chosen(wanted, count) == Chosen::Machines(names),
        rates == f.ranking(wanted).map_values(|n: Seq<char>| f.workers[n].rate),
    ensures
        f.rates(names) == budget::total(rates.take(count as int)),
{
    fleet::lemma_ranking(f, wanted);
    lemma_rates_add_up(f, wanted, f.ranking(wanted), count as int);
    assert(f.ranking(wanted).map_values(|n: Seq<char>| f.workers[n].rate).take(count as int)
        =~= f.ranking(wanted).take(count as int).map_values(|n: Seq<char>| f.workers[n].rate));
}

proof fn lemma_rates_add_up(f: FleetView, wanted: Seq<Seq<char>>, ranking: Seq<Seq<char>>, k: int)
    requires
        f.is_ranking(wanted, ranking),
        0 <= k <= ranking.len(),
    ensures
        f.rates(ranking.take(k)) == budget::total(
            ranking.take(k).map_values(|n: Seq<char>| f.workers[n].rate),
        ),
    decreases k,
{
    if k > 0 {
        lemma_rates_add_up(f, wanted, ranking, k - 1);
        let names = ranking.take(k);
        assert(names.drop_last() =~= ranking.take(k - 1));
        assert(f.candidate(wanted, ranking[k - 1]));
        let rates = names.map_values(|n: Seq<char>| f.workers[n].rate);
        assert(rates.drop_last() =~= ranking.take(k - 1).map_values(
            |n: Seq<char>| f.workers[n].rate,
        ));
    }
}

/// Nothing is free: holding a machine costs its rate at least, however short the time.
pub proof fn law_a_part_minute_is_a_minute(r: ReservationView, at: nat)
    ensures
        r.cost_by(at) >= r.rate,
{
    let minutes = fleet::minutes_held(r.started_at as nat, at);
    assert(minutes >= 1);
    assert(minutes * r.rate as nat >= r.rate as nat) by (nonlinear_arith)
        requires
            minutes >= 1,
    ;
}

/// Holding on never gets cheaper.
pub proof fn law_cost_grows_with_time(r: ReservationView, earlier: nat, later: nat)
    requires
        earlier <= later,
    ensures
        r.cost_by(earlier) <= r.cost_by(later),
{
    let a = fleet::minutes_held(r.started_at as nat, earlier);
    let b = fleet::minutes_held(r.started_at as nat, later);
    assert(a <= b);
    assert(a * r.rate as nat <= b * r.rate as nat) by (nonlinear_arith)
        requires
            a <= b,
    ;
}

/// A grant adds what it can cost at most to what its tenant has committed, and nothing to
/// what any other has.
pub proof fn law_a_grant_is_committed_before_it_is_spent(
    f: FleetView,
    names: Seq<Seq<char>>,
    caller: Seq<char>,
    alias: Seq<char>,
    tenant: Seq<char>,
    lifetime: nat,
    at: u64,
    other: Seq<char>,
)
    requires
        f.wf(),
    ensures
        ({
            let g = f.granted(names, caller, alias, tenant, lifetime, at);
            g.committed(other) == f.committed(other) + if other == tenant {
                g.reservations[fleet::reservation_id(g.issued)].worst_case()
            } else {
                0
            }
        }),
{
    let g = f.granted(names, caller, alias, tenant, lifetime, at);
    let id = fleet::reservation_id(g.issued);
    law_an_id_is_never_given_out_twice(f);
    let before = |q: Seq<char>| f.commitment(other, q);
    let after = |q: Seq<char>| g.commitment(other, q);
    assert(g.reservations.dom() =~= f.reservations.dom().insert(id));
    table::lemma_sum_insert(f.reservations.dom(), after, id);
    table::lemma_sum_same(f.reservations.dom(), after, before);
}

/// Ending a reservation takes its commitment off its tenant.
pub proof fn law_closing_ends_a_commitment(f: FleetView, id: Seq<char>, tenant: Seq<char>)
    requires
        f.wf(),
        f.reservations.dom().contains(id),
    ensures
        f.committed(tenant) == f.closed(set![id]).committed(tenant) + f.commitment(tenant, id),
{
    let g = f.closed(set![id]);
    let before = |q: Seq<char>| f.commitment(tenant, q);
    let after = |q: Seq<char>| g.commitment(tenant, q);
    assert(g.reservations.dom() =~= f.reservations.dom().remove(id));
    table::lemma_sum_remove(f.reservations.dom(), before, id);
    table::lemma_sum_same(g.reservations.dom(), after, before);
}

// ---------------------------------------------------------------------------
// giving back
// ---------------------------------------------------------------------------

/// Releasing what was just granted leaves every machine and every other reservation as if
/// it had never been asked for.
pub proof fn law_releasing_undoes_a_grant(
    f: FleetView,
    wanted: Seq<Seq<char>>,
    count: nat,
    names: Seq<Seq<char>>,
    caller: Seq<char>,
    alias: Seq<char>,
    tenant: Seq<char>,
    lifetime: nat,
    at: u64,
)
    requires
        f.wf(),
        f.chosen(wanted, count) == Chosen::Machines(names),
    ensures
        ({
            let g = f.granted(names, caller, alias, tenant, lifetime, at);
            let h = g.closed(set![fleet::reservation_id(g.issued)]);
            h.workers == f.workers && h.reservations == f.reservations
        }),
{
    law_a_choice_is_of_free_capable_machines(f, wanted, count, names);
    law_an_id_is_never_given_out_twice(f);
    let g = f.granted(names, caller, alias, tenant, lifetime, at);
    let id = fleet::reservation_id(g.issued);
    let h = g.closed(set![id]);
    assert(h.reservations =~= f.reservations);
    assert forall|n: Seq<char>| #[trigger] f.workers.dom().contains(n) implies h.workers[n]
        == f.workers[n] by {
        if names.contains(n) {
            assert(g.reservations[id].workers.contains(n));
            assert(set![id].contains(id));
            assert(g.named_by(set![id], n));
            assert(h.workers[n] =~= f.workers[n]);
        } else {
            assert(!g.named_by(set![id], n)) by {
                if g.named_by(set![id], n) {
                    let q = choose|q: Seq<char>|
                        set![id].contains(q) && g.reservations.dom().contains(q)
                            && #[trigger] g.reservations[q].workers.contains(n);
                    assert(q == id);
                }
            }
        }
    }
    assert(h.workers =~= f.workers);
}

/// Only the key a reservation was granted to may give it back: anybody else is refused, and
/// nothing changes.
pub proof fn law_only_the_holder_may_release(
    before: FleetView,
    after: FleetView,
    result: Result<Closed, String>,
    id: Seq<char>,
    caller: Seq<char>,
    at: u64,
)
    requires
        fleet::released(before, after, result, id, caller, at),
        before.reservations.dom().contains(id),
        before.reservations[id].caller != caller,
    ensures
        result is Err,
        after == before,
{
}

/// After expiring, nothing is past its time, and what was not past it is as it was.
pub proof fn law_expiry_takes_back_what_is_due_and_nothing_else(
    before: FleetView,
    after: FleetView,
    result: Seq<Closed>,
    at: u64,
)
    requires
        fleet::expired(before, after, result, at),
    ensures
        after.stale(at) == Set::<Seq<char>>::empty(),
        forall|id: Seq<char>| #[trigger]
            before.reservations.dom().contains(id) && before.reservations[id].expires_at > at
                ==> after.reservations.dom().contains(id) && after.reservations[id]
                == before.reservations[id],
        forall|n: Seq<char>| #[trigger]
            before.workers.dom().contains(n) && before.named_by(before.stale(at), n)
                ==> after.workers[n].held_by is None,
{
    assert(after.stale(at) =~= Set::<Seq<char>>::empty());
}

// ---------------------------------------------------------------------------
// rehearsing
// ---------------------------------------------------------------------------

/// A rehearsal and a real ask agree: what is granted is what choosing named, in its order.
pub proof fn law_a_rehearsal_and_a_real_ask_agree(
    before: FleetView,
    after: FleetView,
    allocation: Allocation,
    wanted: Seq<Seq<char>>,
    count: u32,
    caller: Seq<char>,
    alias: Seq<char>,
    tenant: Seq<char>,
    lifetime: u64,
    at: u64,
)
    requires
        before.wf(),
        fleet::allocated(
            before,
            after,
            Ok::<Allocation, Shortfall>(allocation),
            wanted,
            count,
            caller,
            alias,
            tenant,
            lifetime,
            at,
        ),
    ensures
        before.chosen(wanted, count as nat) == Chosen::Machines(
            fleet::machines(allocation.workers@).map_values(|w: WorkerView| w.name),
        ),
        forall|i: int|
            0 <= i < allocation.workers@.len() ==> (#[trigger] allocation.workers@[i])@.held_by == Some(
                allocation.reservation@,
            ),
{
    let names = before.chosen(wanted, count as nat)->Machines_0;
    law_a_choice_is_of_free_capable_machines(before, wanted, count as nat, names);
    let told = fleet::machines(allocation.workers@);
    assert forall|i: int| 0 <= i < names.len() implies (#[trigger] told[i]).name == names[i]
        && told[i].held_by == Some(allocation.reservation@) by {
        assert(names.contains(names[i]));
        assert(before.candidate(wanted, names[i]));
    }
    assert(told.map_values(|w: WorkerView| w.name) =~= names);
    assert forall|i: int| 0 <= i < allocation.workers@.len() implies (
    #[trigger] allocation.workers@[i])@.held_by == Some(allocation.reservation@) by {
        assert(told[i].held_by == Some(allocation.reservation@));
    }
}

// ---------------------------------------------------------------------------
// a fleet whose books are straight
// ---------------------------------------------------------------------------

impl FleetView {
    /// Who holds what, read from either side, comes to the same: a machine is held by a
    /// reservation exactly where that reservation is open and lists it. Only machines that
    /// are here are listed, each once, and by one reservation at most, and every open
    /// reservation has an id that this fleet gave out.
    pub open spec fn accounted(self) -> bool {
        &&& self.wf()
        &&& forall|n: Seq<char>, id: Seq<char>|
            self.workers.dom().contains(n) ==> ((self.workers[n].held_by == Some(id)) <==> (
            self.reservations.dom().contains(id)
                && #[trigger] self.reservations[id].workers.contains(n)))
        &&& forall|id: Seq<char>, n: Seq<char>|
            self.reservations.dom().contains(id)
                && #[trigger] self.reservations[id].workers.contains(n)
                ==> self.workers.dom().contains(n)
        &&& forall|a: Seq<char>, b: Seq<char>, n: Seq<char>|
            self.reservations.dom().contains(a) && self.reservations.dom().contains(b)
                && #[trigger] self.reservations[a].workers.contains(n)
                && #[trigger] self.reservations[b].workers.contains(n) ==> a == b
        &&& forall|id: Seq<char>| #[trigger]
            self.reservations.dom().contains(id) ==> self.reservations[id].workers.no_duplicates()
                && self.given_out(id)
    }
}

/// The books are straight wherever a machine is held by exactly the reservation that names
/// it, and no reservation names a machine that is not here.
proof fn lemma_accounted(f: FleetView)
    requires
        f.wf(),
        f.exclusive(),
        forall|id: Seq<char>, n: Seq<char>|
            f.reservations.dom().contains(id) && #[trigger] f.reservations[id].workers.contains(n)
                ==> f.workers.dom().contains(n),
    ensures
        f.accounted(),
{
    assert forall|n: Seq<char>, id: Seq<char>| f.workers.dom().contains(n) implies ((
    f.workers[n].held_by == Some(id)) <==> (f.reservations.dom().contains(id)
        && #[trigger] f.reservations[id].workers.contains(n))) by {}
    assert forall|a: Seq<char>, b: Seq<char>, n: Seq<char>|
        f.reservations.dom().contains(a) && f.reservations.dom().contains(b)
            && #[trigger] f.reservations[a].workers.contains(n)
            && #[trigger] f.reservations[b].workers.contains(n) implies a == b by {
        assert(f.workers.dom().contains(n));
        assert(f.workers[n].held_by == Some(a));
        assert(f.workers[n].held_by == Some(b));
    }
}

proof fn lemma_accounted_is_exclusive(f: FleetView)
    requires
        f.accounted(),
    ensures
        f.exclusive(),
{
    assert forall|n: Seq<char>| #[trigger] f.workers.dom().contains(n) && f.workers[n].held_by is Some implies {
        let id = f.workers[n].held_by->0;
        f.reservations.dom().contains(id) && f.reservations[id].workers.contains(n)
    } by {
        lemma_listed(f, n, f.workers[n].held_by->0);
    }
}

proof fn lemma_listed(f: FleetView, n: Seq<char>, id: Seq<char>)
    requires
        f.accounted(),
        f.workers.dom().contains(n),
    ensures
        (f.workers[n].held_by == Some(id)) <==> (f.reservations.dom().contains(id)
            && f.reservations[id].workers.contains(n)),
{
    let listed = f.reservations[id].workers;
    if listed.contains(n) {
    }
}

/// An empty fleet's books are straight.
pub proof fn law_an_empty_fleet_is_accounted()
    ensures
        FleetView::empty().accounted(),
{
}

/// Asking for machines keeps the books straight, whatever is answered.
pub proof fn law_allocating_keeps_the_books(
    before: FleetView,
    after: FleetView,
    result: Result<Allocation, Shortfall>,
    wanted: Seq<Seq<char>>,
    count: u32,
    caller: Seq<char>,
    alias: Seq<char>,
    tenant: Seq<char>,
    lifetime: u64,
    at: u64,
)
    requires
        before.accounted(),
        fleet::allocated(
            before,
            after,
            result,
            wanted,
            count,
            caller,
            alias,
            tenant,
            lifetime,
            at,
        ),
    ensures
        after.accounted(),
{
    if result is Ok {
        let names = before.chosen(wanted, count as nat)->Machines_0;
        lemma_accounted_is_exclusive(before);
        law_granting_keeps_machines_exclusive(
            before,
            wanted,
            count as nat,
            names,
            caller,
            alias,
            tenant,
            fleet::lasting(lifetime) as nat,
            at,
        );
        law_a_choice_is_of_free_capable_machines(before, wanted, count as nat, names);
        lemma_granted_wf(
            before,
            names,
            caller,
            alias,
            tenant,
            fleet::lasting(lifetime) as nat,
            at,
        );
        let new = fleet::reservation_id(before.issued + 1);
        assert forall|id: Seq<char>, n: Seq<char>|
            after.reservations.dom().contains(id)
                && #[trigger] after.reservations[id].workers.contains(n) implies after.workers.dom().contains(
        n) by {
            if id == new {
                assert(before.candidate(wanted, n));
            } else {
                assert(before.reservations[id].workers.contains(n));
            }
        }
        lemma_accounted(after);
    }
}

proof fn lemma_granted_wf(
    f: FleetView,
    names: Seq<Seq<char>>,
    caller: Seq<char>,
    alias: Seq<char>,
    tenant: Seq<char>,
    lifetime: nat,
    at: u64,
)
    requires
        f.wf(),
    ensures
        f.granted(names, caller, alias, tenant, lifetime, at).wf(),
{
    let g = f.granted(names, caller, alias, tenant, lifetime, at);
    assert(g.workers.dom() =~= f.workers.dom());
    assert forall|id: Seq<char>| #[trigger] g.reservations.dom().contains(id) implies g.reservations[id].id
        == id && g.given_out(id) by {
        let new = fleet::reservation_id(f.issued + 1);
        if id != new {
            assert(f.reservations.dom().contains(id));
            let k = choose|k: nat| 1 <= k <= f.issued && id == #[trigger] fleet::reservation_id(k);
            assert(1 <= k <= g.issued);
        }
    }
}

/// Ending reservations keeps the books straight.
proof fn lemma_closing_keeps_the_books(f: FleetView, ids: Set<Seq<char>>)
    requires
        f.accounted(),
    ensures
        f.closed(ids).accounted(),
{
    let g = f.closed(ids);
    lemma_accounted_is_exclusive(f);
    law_closing_keeps_machines_exclusive(f, ids);
    fleet::lemma_closed_wf(f, ids);
    assert forall|id: Seq<char>, n: Seq<char>|
        g.reservations.dom().contains(id) && #[trigger] g.reservations[id].workers.contains(n) implies g.workers.dom().contains(
    n) by {
        assert(f.reservations[id].workers.contains(n));
    }
    lemma_accounted(g);
}

/// Giving back keeps the books straight, whatever is answered.
pub proof fn law_releasing_keeps_the_books(
    before: FleetView,
    after: FleetView,
    result: Result<Closed, String>,
    id: Seq<char>,
    caller: Seq<char>,
    at: u64,
)
    requires
        before.accounted(),
        fleet::released(before, after, result, id, caller, at),
    ensures
        after.accounted(),
{
    lemma_closing_keeps_the_books(before, set![id]);
}

/// Expiry keeps the books straight.
pub proof fn law_expiring_keeps_the_books(
    before: FleetView,
    after: FleetView,
    result: Seq<Closed>,
    at: u64,
)
    requires
        before.accounted(),
        fleet::expired(before, after, result, at),
    ensures
        after.accounted(),
{
    lemma_closing_keeps_the_books(before, before.stale(at));
}

/// A machine that leaves keeps the books straight: nobody holds it, and no reservation
/// lists it any more.
pub proof fn law_departing_keeps_the_books(f: FleetView, name: Seq<char>)
    requires
        f.accounted(),
    ensures
        f.departed(name).accounted(),
        !f.departed(name).spoken_for(name),
{
    let g = f.departed(name);
    lemma_accounted_is_exclusive(f);
    law_departing_keeps_machines_exclusive(f, name);
    lemma_departed_wf(f, name);
    assert forall|id: Seq<char>, n: Seq<char>|
        g.reservations.dom().contains(id) && #[trigger] g.reservations[id].workers.contains(n) implies n
        != name && g.workers.dom().contains(n) by {
        lemma_filter(f.reservations[id].workers, name);
        assert(g.reservations[id] == f.reservations[id].without(name));
        assert(f.reservations[id].workers.contains(n));
    }
    lemma_accounted(g);
}

proof fn lemma_departed_wf(f: FleetView, name: Seq<char>)
    requires
        f.wf(),
    ensures
        f.departed(name).wf(),
{
    let g = f.departed(name);
    assert(g.workers.dom() =~= f.workers.dom().remove(name));
    assert(g.reservations.dom() =~= f.reservations.dom());
    assert forall|id: Seq<char>| #[trigger] g.reservations.dom().contains(id) implies g.reservations[id].id
        == id && g.given_out(id) by {
        assert(f.reservations.dom().contains(id));
        let k = choose|k: nat| 1 <= k <= f.issued && id == #[trigger] fleet::reservation_id(k);
        assert(1 <= k <= g.issued);
    }
}

/// A machine that nobody holds may arrive, new or in place of one that nobody held, and the
/// books stay straight.
pub proof fn law_arriving_keeps_the_books(f: FleetView, worker: WorkerView)
    requires
        f.accounted(),
        worker.held_by is None,
        f.workers.dom().contains(worker.name) ==> f.workers[worker.name].held_by is None,
    ensures
        f.arrived(worker).accounted(),
{
    let g = f.arrived(worker);
    lemma_accounted_is_exclusive(f);
    assert(!f.spoken_for(worker.name)) by {
        if f.spoken_for(worker.name) {
            let id = choose|id: Seq<char>|
                f.reservations.dom().contains(id)
                    && #[trigger] f.reservations[id].workers.contains(worker.name);
            assert(f.workers.dom().contains(worker.name));
        }
    }
    law_arriving_keeps_machines_exclusive(f, worker);
    lemma_arrived_wf(f, worker);
    assert forall|id: Seq<char>, n: Seq<char>|
        g.reservations.dom().contains(id) && #[trigger] g.reservations[id].workers.contains(n) implies g.workers.dom().contains(
    n) by {
        assert(f.reservations[id].workers.contains(n));
    }
    lemma_accounted(g);
}

proof fn lemma_arrived_wf(f: FleetView, worker: WorkerView)
    requires
        f.wf(),
    ensures
        f.arrived(worker).wf(),
{
    let g = f.arrived(worker);
    assert forall|id: Seq<char>| #[trigger] g.reservations.dom().contains(id) implies g.reservations[id].id
        == id && g.given_out(id) by {
        assert(f.reservations.dom().contains(id));
        let k = choose|k: nat| 1 <= k <= f.issued && id == #[trigger] fleet::reservation_id(k);
        assert(1 <= k <= g.issued);
    }
}

// ---------------------------------------------------------------------------
// what a grant touches
// ---------------------------------------------------------------------------

/// Asking is refused exactly where choosing is, and then nothing changes. Otherwise there is
/// one reservation more, under an id that no open one has; the machines that it lists were
/// free and are held by it, and of a machine nothing but who holds it changes.
pub proof fn law_a_grant_touches_only_what_it_takes(
    before: FleetView,
    after: FleetView,
    result: Result<Allocation, Shortfall>,
    wanted: Seq<Seq<char>>,
    count: u32,
    caller: Seq<char>,
    alias: Seq<char>,
    tenant: Seq<char>,
    lifetime: u64,
    at: u64,
)
    requires
        before.wf(),
        fleet::allocated(
            before,
            after,
            result,
            wanted,
            count,
            caller,
            alias,
            tenant,
            lifetime,
            at,
        ),
    ensures
        result is Err <==> !(before.chosen(wanted, count as nat) is Machines),
        result is Err ==> after.workers == before.workers && after.reservations
            == before.reservations,
        match result {
            Ok(allocation) => {
                let id = allocation.reservation@;
                &&& !before.reservations.dom().contains(id)
                &&& after.reservations.dom() == before.reservations.dom().insert(id)
                &&& forall|other: Seq<char>| #[trigger]
                    before.reservations.dom().contains(other) ==> after.reservations[other]
                        == before.reservations[other]
                &&& after.workers.dom() == before.workers.dom()
                &&& forall|n: Seq<char>| #[trigger]
                    after.reservations[id].workers.contains(n) ==> before.workers.dom().contains(n)
                        && before.workers[n].held_by is None
                &&& forall|n: Seq<char>| #[trigger]
                    before.workers.dom().contains(n) ==> after.workers[n] == (
                    if after.reservations[id].workers.contains(n) {
                        WorkerView { held_by: Some(id), ..before.workers[n] }
                    } else {
                        before.workers[n]
                    })
            },
            Err(_) => true,
        },
{
    law_an_id_is_never_given_out_twice(before);
    if result is Ok {
        let names = before.chosen(wanted, count as nat)->Machines_0;
        let id = fleet::reservation_id(before.issued + 1);
        law_a_choice_is_of_free_capable_machines(before, wanted, count as nat, names);
        assert(after.reservations.dom() =~= before.reservations.dom().insert(id));
        assert(after.workers.dom() =~= before.workers.dom());
        assert forall|n: Seq<char>| #[trigger]
            after.reservations[id].workers.contains(n) implies before.workers.dom().contains(n)
            && before.workers[n].held_by is None by {
            assert(before.candidate(wanted, n));
        }
    }
}

// ---------------------------------------------------------------------------
// ids, over a fleet's whole life
// ---------------------------------------------------------------------------

/// Something that happens to a fleet.
pub enum Event {
    Arrives(WorkerView),
    Departs(Seq<char>),
    Granted {
        names: Seq<Seq<char>>,
        caller: Seq<char>,
        alias: Seq<char>,
        tenant: Seq<char>,
        lifetime: nat,
        at: u64,
    },
    Closed(Set<Seq<char>>),
}

impl FleetView {
    /// The fleet after one event.
    pub open spec fn after(self, event: Event) -> FleetView {
        match event {
            Event::Arrives(worker) => self.arrived(worker),
            Event::Departs(name) => self.departed(name),
            Event::Granted { names, caller, alias, tenant, lifetime, at } => self.granted(
                names,
                caller,
                alias,
                tenant,
                lifetime,
                at,
            ),
            Event::Closed(ids) => self.closed(ids),
        }
    }

    /// The fleet after a whole series of events.
    pub open spec fn after_all(self, events: Seq<Event>) -> FleetView
        decreases events.len(),
    {
        if events.len() == 0 {
            self
        } else {
            self.after_all(events.drop_last()).after(events.last())
        }
    }

    /// The id that the `i`th of these events gives out, where that is a grant.
    pub open spec fn id_given(self, events: Seq<Event>, i: int) -> Seq<char> {
        fleet::reservation_id(self.after_all(events.take(i)).issued + 1)
    }
}

/// An ask that is granted is such an event, and the id handed out is the one that the event
/// gives. One that is refused is none.
pub proof fn law_an_ask_is_an_event_or_nothing(
    before: FleetView,
    after: FleetView,
    result: Result<Allocation, Shortfall>,
    wanted: Seq<Seq<char>>,
    count: u32,
    caller: Seq<char>,
    alias: Seq<char>,
    tenant: Seq<char>,
    lifetime: u64,
    at: u64,
)
    requires
        fleet::allocated(
            before,
            after,
            result,
            wanted,
            count,
            caller,
            alias,
            tenant,
            lifetime,
            at,
        ),
    ensures
        match result {
            Ok(allocation) => {
                &&& after == before.after(
                    Event::Granted {
                        names: before.chosen(wanted, count as nat)->Machines_0,
                        caller,
                        alias,
                        tenant,
                        lifetime: fleet::lasting(lifetime) as nat,
                        at,
                    },
                )
                &&& allocation.reservation@ == fleet::reservation_id(before.issued + 1)
            },
            Err(_) => after == before,
        },
{
}

/// So is a return that is accepted.
pub proof fn law_a_return_is_an_event_or_nothing(
    before: FleetView,
    after: FleetView,
    result: Result<Closed, String>,
    id: Seq<char>,
    caller: Seq<char>,
    at: u64,
)
    requires
        fleet::released(before, after, result, id, caller, at),
    ensures
        after == match result {
            Ok(_) => before.after(Event::Closed(set![id])),
            Err(_) => before,
        },
{
}

/// So is an expiry.
pub proof fn law_an_expiry_is_an_event(
    before: FleetView,
    after: FleetView,
    result: Seq<Closed>,
    at: u64,
)
    requires
        fleet::expired(before, after, result, at),
    ensures
        after == before.after(Event::Closed(before.stale(at))),
{
}

proof fn lemma_issued_grows(f: FleetView, events: Seq<Event>, i: int, j: int)
    requires
        0 <= i <= j <= events.len(),
    ensures
        f.after_all(events.take(i)).issued <= f.after_all(events.take(j)).issued,
        i < j && events[i] is Granted ==> f.after_all(events.take(i)).issued < f.after_all(
            events.take(j),
        ).issued,
    decreases j,
{
    if i < j {
        lemma_issued_grows(f, events, i, j - 1);
        assert(events.take(j).drop_last() =~= events.take(j - 1));
        assert(events.take(j).last() == events[j - 1]);
    }
}

/// No two grants of a fleet's life have the same id, whatever happens between them: an id
/// that was given out, and given back, is never given out again.
pub proof fn law_no_two_grants_share_an_id(f: FleetView, events: Seq<Event>, i: int, j: int)
    requires
        0 <= i < j < events.len(),
        events[i] is Granted,
        events[j] is Granted,
    ensures
        f.id_given(events, i) != f.id_given(events, j),
{
    lemma_issued_grows(f, events, i, j);
    if f.id_given(events, i) == f.id_given(events, j) {
        fleet::lemma_reservation_ids_differ(
            f.after_all(events.take(i)).issued + 1,
            f.after_all(events.take(j)).issued + 1,
        );
    }
}

// ---------------------------------------------------------------------------
// what the machines could do
// ---------------------------------------------------------------------------

/// Where nothing is asked of a machine, every machine will do.
pub proof fn law_every_machine_can_do_nothing(f: FleetView)
    ensures
        f.capable_count(Seq::empty()) == f.workers.dom().len(),
{
    let none = Seq::<Seq<char>>::empty();
    assert(f.workers.dom().filter(|n: Seq<char>| f.workers[n].satisfies(none))
        =~= f.workers.dom());
}

/// Asking for more never finds more machines.
pub proof fn law_asking_for_more_finds_no_more(
    f: FleetView,
    wanted: Seq<Seq<char>>,
    more: Seq<char>,
)
    requires
        f.wf(),
    ensures
        f.capable_count(wanted.push(more)) <= f.capable_count(wanted),
{
    let few = f.workers.dom().filter(|n: Seq<char>| f.workers[n].satisfies(wanted.push(more)));
    let many = f.workers.dom().filter(|n: Seq<char>| f.workers[n].satisfies(wanted));
    assert forall|n: Seq<char>| #[trigger] few.contains(n) implies many.contains(n) by {
        assert forall|i: int| 0 <= i < wanted.len() implies f.workers[n].capabilities.contains(
            #[trigger] wanted[i],
        ) by {
            assert(wanted.push(more)[i] == wanted[i]);
        }
    }
    vstd::set_lib::lemma_len_subset(few, many);
}

proof fn lemma_same_able(f: FleetView, g: FleetView, wanted: Seq<Seq<char>>)
    requires
        f.workers.dom() == g.workers.dom(),
        forall|n: Seq<char>| #[trigger]
            f.workers.dom().contains(n) ==> g.workers[n].capabilities == f.workers[n].capabilities,
    ensures
        f.capable_count(wanted) == g.capable_count(wanted),
{
    assert(f.workers.dom().filter(|n: Seq<char>| f.workers[n].satisfies(wanted))
        =~= g.workers.dom().filter(|n: Seq<char>| g.workers[n].satisfies(wanted)));
}

/// What the machines could do does not depend on who has them: an ask changes nothing of it.
pub proof fn law_asking_leaves_machines_as_capable(
    before: FleetView,
    after: FleetView,
    result: Result<Allocation, Shortfall>,
    wanted: Seq<Seq<char>>,
    count: u32,
    caller: Seq<char>,
    alias: Seq<char>,
    tenant: Seq<char>,
    lifetime: u64,
    at: u64,
    any: Seq<Seq<char>>,
)
    requires
        fleet::allocated(
            before,
            after,
            result,
            wanted,
            count,
            caller,
            alias,
            tenant,
            lifetime,
            at,
        ),
    ensures
        after.capable_count(any) == before.capable_count(any),
{
    assert(after.workers.dom() =~= before.workers.dom());
    lemma_same_able(before, after, any);
}

/// Nor does a return.
pub proof fn law_returning_leaves_machines_as_capable(
    before: FleetView,
    after: FleetView,
    result: Result<Closed, String>,
    id: Seq<char>,
    caller: Seq<char>,
    at: u64,
    any: Seq<Seq<char>>,
)
    requires
        fleet::released(before, after, result, id, caller, at),
    ensures
        after.capable_count(any) == before.capable_count(any),
{
    assert(after.workers.dom() =~= before.workers.dom());
    lemma_same_able(before, after, any);
}

/// Nor does an expiry.
pub proof fn law_expiring_leaves_machines_as_capable(
    before: FleetView,
    after: FleetView,
    result: Seq<Closed>,
    at: u64,
    any: Seq<Seq<char>>,
)
    requires
        fleet::expired(before, after, result, at),
    ensures
        after.capable_count(any) == before.capable_count(any),
{
    assert(after.workers.dom() =~= before.workers.dom());
    lemma_same_able(before, after, any);
}

// ---------------------------------------------------------------------------
// what holding costs
// ---------------------------------------------------------------------------

/// Holding something from one second to another is charged by the minute, and every minute
/// begun is a whole one. No time at all is a minute too.
pub proof fn law_every_minute_begun_is_charged(started: nat, at: nat, minutes: nat)
    ensures
        at <= started ==> fleet::minutes_held(started, at) == 1,
        at > started && 60 * minutes >= at - started > 60 * (minutes - 1) ==> fleet::minutes_held(
            started,
            at,
        ) == minutes,
{
}

/// A reservation costs its rate for every minute charged, as far as that can be counted.
pub proof fn law_a_reservation_costs_its_rate_by_the_minute(
    r: ReservationView,
    at: u64,
    minutes: nat,
)
    requires
        at > r.started_at ==> 60 * minutes >= at - r.started_at > 60 * (minutes - 1),
        at <= r.started_at ==> minutes == 1,
    ensures
        minutes * r.rate as nat <= u64::MAX ==> r.cost_by(at as nat) == minutes * r.rate as nat,
        minutes * r.rate as nat > u64::MAX ==> r.cost_by(at as nat) == u64::MAX,
{
    law_every_minute_begun_is_charged(r.started_at as nat, at as nat, minutes);
}

// ---------------------------------------------------------------------------
// what choosing, granting and ending come to
// ---------------------------------------------------------------------------

/// Nothing here can do it exactly where every machine lacks something that is wanted, whoever
/// has the machines.
pub proof fn law_impossible_means_that_no_machine_can(
    f: FleetView,
    wanted: Seq<Seq<char>>,
    count: nat,
)
    ensures
        f.chosen(wanted, count) is NoneCapable <==> (forall|n: Seq<char>| #[trigger]
            f.workers.dom().contains(n) ==> exists|i: int|
                0 <= i < wanted.len() && !f.workers[n].capabilities.contains(
                    #[trigger] wanted[i],
                )),
{
    if f.chosen(wanted, count) is NoneCapable {
        assert forall|n: Seq<char>| #[trigger] f.workers.dom().contains(n) implies exists|i: int|
            0 <= i < wanted.len() && !f.workers[n].capabilities.contains(#[trigger] wanted[i]) by {
            assert(!f.capable(wanted, n));
        }
    } else {
        let n = choose|n: Seq<char>| f.capable(wanted, n);
        assert(f.workers.dom().contains(n));
    }
}

/// Every machine that is chosen is here, is free, and can do everything that was wanted; no
/// machine is chosen twice, and as many are chosen as were asked for.
pub proof fn law_what_is_chosen_can_be_used(
    f: FleetView,
    wanted: Seq<Seq<char>>,
    count: nat,
    names: Seq<Seq<char>>,
    n: Seq<char>,
    i: int,
)
    requires
        f.wf(),
        f.chosen(wanted, count) == Chosen::Machines(names),
        names.contains(n),
        0 <= i < wanted.len(),
    ensures
        f.workers.dom().contains(n),
        f.workers[n].held_by is None,
        f.workers[n].capabilities.contains(wanted[i]),
        names.len() == count,
        names.no_duplicates(),
{
    law_a_choice_is_of_free_capable_machines(f, wanted, count, names);
    assert(f.candidate(wanted, n));
}

/// As many machines as are free and can do the work are given: a request is cut short only
/// where there are fewer than it asks for, and it is told how many there are.
pub proof fn law_no_machine_is_kept_back(
    f: FleetView,
    wanted: Seq<Seq<char>>,
    count: nat,
    idle: Set<Seq<char>>,
)
    requires
        f.wf(),
        forall|n: Seq<char>| #[trigger]
            idle.contains(n) <==> (f.workers.dom().contains(n) && f.workers[n].held_by is None && (
            forall|i: int|
                0 <= i < wanted.len() ==> f.workers[n].capabilities.contains(
                    #[trigger] wanted[i],
                ))),
    ensures
        f.chosen(wanted, count) is Machines ==> count <= idle.len(),
        idle.len() > 0 && count <= idle.len() ==> f.chosen(wanted, count) is Machines,
        idle.len() > 0 && idle.len() < count ==> f.chosen(wanted, count) == Chosen::Fewer(
            idle.len(),
        ),
        idle.len() <= u32::MAX ==> f.brief(wanted).free == idle.len(),
        f.brief(wanted).rates.len() == idle.len(),
{
    fleet::lemma_ranking(f, wanted);
    let names = f.ranking(wanted);
    assert(f.is_ranking(wanted, names));
    assert forall|i: int, j: int| 0 <= i < j < names.len() implies names[i] != names[j] by {
        assert(f.goes_before(names[i], names[j]));
        text::lemma_precedes_irreflexive(names[i]);
    }
    names.unique_seq_to_set();
    assert forall|n: Seq<char>| #[trigger] idle.contains(n) <==> names.to_set().contains(n) by {
        assert(idle.contains(n) <==> f.candidate(wanted, n));
        if names.contains(n) {
            let i = choose|i: int| 0 <= i < names.len() && names[i] == n;
            assert(f.candidate(wanted, names[i]));
        }
    }
    assert(idle =~= names.to_set());
    if idle.len() > 0 {
        assert(f.candidate(wanted, names[0]));
        assert(f.capable(wanted, names[0]));
    }
}

/// The rates that a fleet is described by go up: the first so many of them are the cheapest
/// so many machines that can be had. And it is described whole.
pub proof fn law_a_brief_counts_the_fleet_and_lists_the_cheapest_first(
    f: FleetView,
    wanted: Seq<Seq<char>>,
    able: Set<Seq<char>>,
    i: int,
    j: int,
)
    requires
        f.wf(),
        forall|n: Seq<char>| #[trigger]
            able.contains(n) <==> (f.workers.dom().contains(n) && (forall|k: int|
                0 <= k < wanted.len() ==> f.workers[n].capabilities.contains(
                    #[trigger] wanted[k],
                ))),
        f.workers.dom().len() <= u32::MAX,
    ensures
        f.brief(wanted).fleet == f.workers.dom().len(),
        f.brief(wanted).capable == able.len(),
        0 <= i <= j < f.brief(wanted).rates.len() ==> f.brief(wanted).rates[i] <= f.brief(
            wanted,
        ).rates[j],
{
    fleet::lemma_ranking(f, wanted);
    let names = f.ranking(wanted);
    if 0 <= i < j < names.len() {
        assert(f.goes_before(names[i], names[j]));
    }
    let can = f.workers.dom().filter(|n: Seq<char>| f.workers[n].satisfies(wanted));
    assert(can =~= able);
    vstd::set_lib::lemma_len_subset(able, f.workers.dom());
}

/// A grant writes down who it was made to, who pays, which machines it has, and when it ends:
/// as long after it was made as it was to last, and a second at least. It costs by the minute
/// what its machines cost together.
pub proof fn law_a_grant_is_written_down(
    before: FleetView,
    after: FleetView,
    allocation: Allocation,
    wanted: Seq<Seq<char>>,
    count: u32,
    caller: Seq<char>,
    alias: Seq<char>,
    tenant: Seq<char>,
    lifetime: u64,
    at: u64,
)
    requires
        before.wf(),
        fleet::allocated(
            before,
            after,
            Ok::<Allocation, Shortfall>(allocation),
            wanted,
            count,
            caller,
            alias,
            tenant,
            lifetime,
            at,
        ),
    ensures
        after.reservations.dom().contains(allocation.reservation@),
        ({
            let r = after.reservations[allocation.reservation@];
            let lasts = if lifetime > 0 {
                lifetime as int
            } else {
                1
            };
            &&& r.id == allocation.reservation@
            &&& r.caller == caller
            &&& r.alias == alias
            &&& r.tenant == tenant
            &&& r.started_at == at
            &&& at + lasts <= u64::MAX ==> r.expires_at == at + lasts
            &&& at + lasts > u64::MAX ==> r.expires_at == u64::MAX
            &&& allocation.expires_in == lasts
            &&& allocation.limits.max_seconds == lasts
            &&& r.workers.len() == count
            &&& allocation.workers@.len() == count
            &&& forall|i: int|
                0 <= i < count ==> (#[trigger] allocation.workers@[i])@.name == r.workers[i]
            &&& before.rates(r.workers) <= u32::MAX ==> r.rate == before.rates(r.workers)
        }),
        after.issued == before.issued + 1,
        allocation.reservation@ == "r"@ + text::decimal_of(before.issued + 1),
{
    let names = before.chosen(wanted, count as nat)->Machines_0;
    law_a_choice_is_of_free_capable_machines(before, wanted, count as nat, names);
    assert(fleet::machines(allocation.workers@).len() == allocation.workers@.len());
    assert forall|i: int| 0 <= i < count implies (#[trigger] allocation.workers@[i])@.name
        == names[i] by {
        assert(fleet::machines(allocation.workers@)[i] == allocation.workers@[i]@);
        assert(names.contains(names[i]));
        assert(before.candidate(wanted, names[i]));
        assert(after.workers.dom().contains(names[i]));
        assert(before.workers[names[i]].name == names[i]);
    }
}

/// What a list of machines costs by the minute is what its first ones cost and what its last
/// one costs, together.
pub proof fn law_the_price_of_machines_is_the_sum_of_their_rates(
    f: FleetView,
    names: Seq<Seq<char>>,
    n: Seq<char>,
)
    ensures
        f.rates(Seq::empty()) == 0,
        f.workers.dom().contains(n) ==> f.rates(names.push(n)) == f.rates(names)
            + f.workers[n].rate,
        !f.workers.dom().contains(n) ==> f.rates(names.push(n)) == f.rates(names),
{
    assert(names.push(n).drop_last() =~= names);
}

/// Whoever a reservation was granted to may give it back. Then it is over, the machines it
/// named are free, every other reservation and machine is as it was, and it is billed for
/// every minute begun.
pub proof fn law_the_holder_gives_back_and_pays(
    before: FleetView,
    after: FleetView,
    result: Result<Closed, String>,
    id: Seq<char>,
    at: u64,
    minutes: nat,
    n: Seq<char>,
    other: Seq<char>,
)
    requires
        before.reservations.dom().contains(id),
        fleet::released(before, after, result, id, before.reservations[id].caller, at),
        at > before.reservations[id].started_at,
        60 * minutes >= at - before.reservations[id].started_at > 60 * (minutes - 1),
        before.workers.dom().contains(n),
    ensures
        ({
            let r = before.reservations[id];
            &&& result matches Ok(closed)
            &&& closed.reservation@ == r
            &&& closed.minutes == minutes
            &&& minutes * r.rate as nat <= u64::MAX ==> closed.credits == minutes * r.rate as nat
            &&& minutes * r.rate as nat > u64::MAX ==> closed.credits == u64::MAX
            &&& !after.reservations.dom().contains(id)
            &&& other != id && before.reservations.dom().contains(other) ==> {
                &&& after.reservations.dom().contains(other)
                &&& after.reservations[other] == before.reservations[other]
            }
            &&& after.workers.dom() == before.workers.dom()
            &&& r.workers.contains(n) ==> after.workers[n] == (WorkerView {
                held_by: None,
                ..before.workers[n]
            })
            &&& !r.workers.contains(n) ==> after.workers[n] == before.workers[n]
        }),
{
    let r = before.reservations[id];
    law_every_minute_begun_is_charged(r.started_at as nat, at as nat, minutes);
    law_a_reservation_costs_its_rate_by_the_minute(r, at, minutes);
    let ids = set![id];
    assert(ids.contains(id));
    if r.workers.contains(n) {
        assert(before.named_by(ids, n));
    }
    assert(after.workers.dom() =~= before.workers.dom());
    assert(!ids.contains(other) || other == id);
}

/// What is refused says why: there is no such reservation, or it is somebody else's.
pub proof fn law_a_refused_return_says_why(
    before: FleetView,
    after: FleetView,
    result: Result<Closed, String>,
    id: Seq<char>,
    caller: Seq<char>,
    at: u64,
)
    requires
        fleet::released(before, after, result, id, caller, at),
    ensures
        after != before ==> result is Ok,
        result is Ok <==> before.reservations.dom().contains(id)
            && before.reservations[id].caller == caller,
        !before.reservations.dom().contains(id) ==> result->Err_0@ == "no reservation "@ + id,
        before.reservations.dom().contains(id) && before.reservations[id].caller != caller
            ==> result->Err_0@ == id + " was not granted to you"@,
{
}

/// Expiry ends a reservation from the second its time is up, and not one second before, and
/// bills it once, up to the moment it was found.
pub proof fn law_whoever_walks_away_pays_for_the_time(
    before: FleetView,
    after: FleetView,
    result: Seq<Closed>,
    at: u64,
    id: Seq<char>,
    minutes: nat,
)
    requires
        fleet::expired(before, after, result, at),
        before.wf(),
        before.reservations.dom().contains(id),
        at > before.reservations[id].started_at,
        60 * minutes >= at - before.reservations[id].started_at > 60 * (minutes - 1),
    ensures
        after.reservations.dom().contains(id) <==> at < before.reservations[id].expires_at,
        before.reservations[id].expires_at <= at ==> exists|i: int|
            {
                &&& 0 <= i < result.len()
                &&& (#[trigger] result[i]).reservation@ == before.reservations[id]
                &&& result[i].minutes == minutes
                &&& minutes * before.reservations[id].rate as nat <= u64::MAX ==> result[i].credits
                    == minutes * before.reservations[id].rate as nat
            },
        forall|i: int, j: int|
            0 <= i < j < result.len() ==> (#[trigger] result[i]).reservation@.id != (
            #[trigger] result[j]).reservation@.id,
        forall|i: int|
            0 <= i < result.len() ==> before.reservations.dom().contains(
                (#[trigger] result[i]).reservation@.id,
            ) && before.reservations[result[i].reservation@.id].expires_at <= at,
{
    let r = before.reservations[id];
    let rows = fleet::bills(result);
    assert(before.stale(at).contains(id) <==> r.expires_at <= at);
    if r.expires_at <= at {
        assert(table::keys_of(rows).contains(id));
        let i = choose|i: int| 0 <= i < rows.len() && #[trigger] rows[i].0 == id;
        assert(result[i].reservation@.id == id);
        assert(result[i].bills(r, at));
        law_every_minute_begun_is_charged(r.started_at as nat, at as nat, minutes);
        law_a_reservation_costs_its_rate_by_the_minute(r, at, minutes);
    }
    assert forall|i: int, j: int| 0 <= i < j < result.len() implies (
    #[trigger] result[i]).reservation@.id != (#[trigger] result[j]).reservation@.id by {
        assert(text::precedes(rows[i].0, rows[j].0));
        text::lemma_precedes_irreflexive(rows[i].0);
    }
    assert forall|i: int| 0 <= i < result.len() implies before.reservations.dom().contains(
        (#[trigger] result[i]).reservation@.id,
    ) && before.reservations[result[i].reservation@.id].expires_at <= at by {
        assert(rows[i].0 == result[i].reservation@.id);
        assert(table::has_key(rows, rows[i].0));
        assert(table::keys_of(rows).contains(rows[i].0));
    }
}

/// A machine that arrives is here as it announced itself, and no other changes. One that
/// leaves is gone, no other changes, and every reservation keeps its other machines in order.
pub proof fn law_machines_come_and_go_one_at_a_time(
    f: FleetView,
    worker: WorkerView,
    other: Seq<char>,
    id: Seq<char>,
)
    requires
        other != worker.name,
        f.reservations.dom().contains(id),
    ensures
        ({
            let g = f.arrived(worker);
            &&& g.workers.dom().contains(worker.name)
            &&& g.workers[worker.name] == worker
            &&& g.workers.dom().contains(other) <==> f.workers.dom().contains(other)
            &&& f.workers.dom().contains(other) ==> g.workers[other] == f.workers[other]
            &&& g.reservations == f.reservations
        }),
        ({
            let g = f.departed(worker.name);
            &&& !g.workers.dom().contains(worker.name)
            &&& g.workers.dom().contains(other) <==> f.workers.dom().contains(other)
            &&& f.workers.dom().contains(other) ==> g.workers[other] == f.workers[other]
            &&& g.reservations.dom() == f.reservations.dom()
            &&& g.reservations[id] == (ReservationView {
                workers: f.reservations[id].workers.filter(|n: Seq<char>| n != worker.name),
                ..f.reservations[id]
            })
        }),
{
    assert(f.departed(worker.name).reservations.dom() =~= f.reservations.dom());
    assert(fleet::other_than(worker.name) =~= |n: Seq<char>| n != worker.name);
}

proof fn lemma_abilities_finite(f: FleetView)
    requires
        f.workers.dom().finite(),
    ensures
        Set::new(|c: Seq<char>| f.offers(c)).finite(),
    decreases f.workers.dom().len(),
{
    let all = Set::new(|c: Seq<char>| f.offers(c));
    if f.workers.dom().len() == 0 {
        f.workers.dom().lemma_len0_is_empty();
        assert(all =~= Set::empty());
    } else {
        let n = f.workers.dom().choose();
        assert(f.workers.dom().contains(n));
        let g = FleetView { workers: f.workers.remove(n), ..f };
        assert(g.workers.dom() =~= f.workers.dom().remove(n));
        lemma_abilities_finite(g);
        let others = Set::new(|c: Seq<char>| g.offers(c));
        let own = f.workers[n].capabilities.to_set();
        vstd::seq_lib::seq_to_set_is_finite(f.workers[n].capabilities);
        assert forall|c: Seq<char>| all.contains(c) implies others.union(own).contains(c) by {
            let m = choose|m: Seq<char>|
                f.workers.dom().contains(m) && #[trigger] f.workers[m].capabilities.contains(c);
            if m != n {
                assert(g.workers[m].capabilities.contains(c));
            }
        }
        vstd::set_lib::lemma_set_subset_finite(others.union(own), all);
    }
}

/// What is told of a fleet's abilities is everything that some machine can do, each once and
/// in order, and nothing else.
pub proof fn law_an_ability_is_told_where_a_machine_has_it(f: FleetView, c: Seq<char>)
    requires
        f.wf(),
    ensures
        f.abilities().contains(c) <==> exists|n: Seq<char>|
            f.workers.dom().contains(n) && #[trigger] f.workers[n].capabilities.contains(c),
        forall|i: int, j: int|
            0 <= i < j < f.abilities().len() ==> text::precedes(
                #[trigger] f.abilities()[i],
                #[trigger] f.abilities()[j],
            ),
{
    lemma_abilities_finite(f);
    let dict = Map::new(|c: Seq<char>| f.offers(c), |c: Seq<char>| true);
    assert(dict.dom() =~= Set::new(|c: Seq<char>| f.offers(c)));
    table::lemma_row_of(dict);
    let rows = table::row_of(dict);
    assert(table::dict_of(rows).dom().contains(c) <==> f.offers(c));
    if f.abilities().contains(c) {
        let i = f.abilities().index_of(c);
        assert(rows[i].0 == c);
    }
    if f.offers(c) {
        assert(table::has_key(rows, c));
        let i = choose|i: int| 0 <= i < rows.len() && #[trigger] rows[i].0 == c;
        assert(f.abilities()[i] == c);
    }
}

/// What is committed to a reservation is what it costs if it is held to its last second.
pub proof fn law_a_commitment_is_for_the_whole_lifetime(r: ReservationView, minutes: nat)
    requires
        r.expires_at > r.started_at,
        60 * minutes >= r.expires_at - r.started_at > 60 * (minutes - 1),
    ensures
        minutes * r.rate as nat <= u64::MAX ==> r.worst_case() == minutes * r.rate as nat,
        minutes * r.rate as nat > u64::MAX ==> r.worst_case() == u64::MAX,
{
    law_a_reservation_costs_its_rate_by_the_minute(r, r.expires_at, minutes);
}

/// What a tenant has committed is what its own open reservations may still cost, and nobody
/// else's.
pub proof fn law_a_tenant_commits_for_itself_alone(f: FleetView, tenant: Seq<char>, id: Seq<char>)
    requires
        f.wf(),
    ensures
        (forall|k: Seq<char>| #[trigger]
            f.reservations.dom().contains(k) ==> f.reservations[k].tenant != tenant)
            ==> f.committed(tenant) == 0,
        f.reservations.dom() == set![id] && f.reservations[id].tenant == tenant ==> f.committed(
            tenant,
        ) == f.reservations[id].worst_case(),
    decreases f.reservations.dom().len(),
{
    let ids = f.reservations.dom();
    let worth = |k: Seq<char>| f.commitment(tenant, k);
    if forall|k: Seq<char>| #[trigger]
        f.reservations.dom().contains(k) ==> f.reservations[k].tenant != tenant {
        lemma_nothing_committed(f, tenant, ids);
    }
    if ids == set![id] && f.reservations[id].tenant == tenant {
        assert(ids.contains(id));
        assert(ids.remove(id) =~= Set::empty());
        table::lemma_sum_remove(ids, worth, id);
        assert(table::sum_over(Set::<Seq<char>>::empty(), worth) == 0);
    }
}

proof fn lemma_nothing_committed(f: FleetView, tenant: Seq<char>, ids: Set<Seq<char>>)
    requires
        ids.finite(),
        ids.subset_of(f.reservations.dom()),
        forall|k: Seq<char>| #[trigger]
            f.reservations.dom().contains(k) ==> f.reservations[k].tenant != tenant,
    ensures
        table::sum_over(ids, |k: Seq<char>| f.commitment(tenant, k)) == 0,
    decreases ids.len(),
{
    if ids.len() > 0 {
        let k = ids.choose();
        assert(ids.contains(k));
        assert(f.reservations.dom().contains(k));
        lemma_nothing_committed(f, tenant, ids.remove(k));
    }
}

/// The machines that are told of as free are those that nobody holds.
pub proof fn law_a_free_machine_is_one_that_nobody_holds(f: FleetView, idle: Set<Seq<char>>)
    requires
        forall|n: Seq<char>| #[trigger]
            idle.contains(n) <==> f.workers.dom().contains(n) && f.workers[n].held_by is None,
    ensures
        f.free_count() == idle.len(),
{
    assert(f.workers.dom().filter(|n: Seq<char>| f.workers[n].held_by is None) =~= idle);
}

/// Machines of one price are spent in the order of their names.
pub proof fn law_equals_are_spent_by_name(
    f: FleetView,
    wanted: Seq<Seq<char>>,
    count: nat,
    names: Seq<Seq<char>>,
    i: int,
    j: int,
)
    requires
        f.wf(),
        f.chosen(wanted, count) == Chosen::Machines(names),
        0 <= i < j < names.len(),
    ensures
        f.workers[names[i]].rate <= f.workers[names[j]].rate,
        f.workers[names[i]].rate == f.workers[names[j]].rate ==> text::precedes(names[i], names[j]),
{
    fleet::lemma_ranking(f, wanted);
    let all = f.ranking(wanted);
    assert(names[i] == all[i] && names[j] == all[j]);
    assert(f.goes_before(all[i], all[j]));
}

/// A request that is cut short says how: what no machine can do, or how many are free.
pub proof fn law_a_shortfall_says_what_is_short(
    before: FleetView,
    after: FleetView,
    short: Shortfall,
    wanted: Seq<Seq<char>>,
    count: u32,
    caller: Seq<char>,
    alias: Seq<char>,
    tenant: Seq<char>,
    lifetime: u64,
    at: u64,
)
    requires
        fleet::allocated(
            before,
            after,
            Err::<Allocation, Shortfall>(short),
            wanted,
            count,
            caller,
            alias,
            tenant,
            lifetime,
            at,
        ),
    ensures
        after == before,
        short matches Shortfall::NoneCapable { wanted: told } ==> text::texts(told@) == wanted && (
        forall|n: Seq<char>| !before.capable(wanted, n)),
        short matches Shortfall::Fewer { available } ==> available == before.ranking(wanted).len()
            && available < count,
{
}

} // verus!
