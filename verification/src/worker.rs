//! A machine that is lent out: one tenancy at a time, made fit before each and cleaned after.

use vstd::prelude::*;
use vstd::string::*;

use crate::path;
use crate::proto::{Aadesh, Limits, Outcome, Workspace};
use crate::table::Table;
use crate::text;

verus! {

/// How long an operator's script may take before the machine is written off, in seconds.
pub const HYGIENE_SECS: u64 = 600;

/// How long a caller waits for a machine to be made fit, in seconds.
pub const PREPARE_PATIENCE_SECS: u64 = 600;

/// What an operator wants run around each tenancy. A caller cannot supply these, skip them or
/// see their output.
#[derive(Debug, Clone)]
pub struct Hygiene {
    /// Before the machine is usable: make it fit for whoever is next.
    pub pre: Option<String>,
    /// After the reservation ends: take back what was left.
    pub post: Option<String>,
}

// ---------------------------------------------------------------------------
// tenancies
// ---------------------------------------------------------------------------

/// Whether this machine is fit to be used yet.
#[derive(Debug, Clone)]
pub enum State {
    Preparing,
    Ready,
    /// Preparation failed. The machine stays assigned and refuses work: handing it over anyway
    /// is how one tenant's leftovers end up in another tenant's run.
    Unusable(String),
}

#[verifier::ext_equal]
pub enum StateView {
    Preparing,
    Ready,
    Unusable(Seq<char>),
}

impl View for State {
    type V = StateView;

    open spec fn view(&self) -> StateView {
        match *self {
            State::Preparing => StateView::Preparing,
            State::Ready => StateView::Ready,
            State::Unusable(why) => StateView::Unusable(why@),
        }
    }
}

/// One tenancy of this machine.
#[derive(Debug, Clone)]
pub struct Held {
    pub caller: String,
    pub limits: Limits,
    pub state: State,
}

#[verifier::ext_equal]
pub struct HeldView {
    pub caller: Seq<char>,
    pub limits: Limits,
    pub state: StateView,
}

impl View for Held {
    type V = HeldView;

    open spec fn view(&self) -> HeldView {
        HeldView { caller: self.caller@, limits: self.limits, state: self.state@ }
    }
}

/// What to do about a caller, given what the machine knows right now.
#[derive(Debug)]
pub enum Admission {
    Run(Limits),
    Wait,
    Refuse(String),
}

#[verifier::ext_equal]
pub enum AdmissionView {
    Run(Limits),
    Wait,
    Refuse(Seq<char>),
}

impl View for Admission {
    type V = AdmissionView;

    open spec fn view(&self) -> AdmissionView {
        match *self {
            Admission::Run(limits) => AdmissionView::Run(limits),
            Admission::Wait => AdmissionView::Wait,
            Admission::Refuse(why) => AdmissionView::Refuse(why@),
        }
    }
}

/// May this caller run here? The reservation must be one we were told of, the caller must be
/// whom it was assigned to, and the machine must be fit to use.
pub open spec fn considered(
    held: Option<HeldView>,
    reservation: Seq<char>,
    caller: Seq<char>,
) -> AdmissionView {
    match held {
        None => AdmissionView::Refuse("we hold no reservation "@ + reservation),
        Some(held) => if held.caller != caller {
            AdmissionView::Refuse(reservation + " is not yours"@)
        } else {
            match held.state {
                StateView::Ready => AdmissionView::Run(held.limits),
                StateView::Preparing => AdmissionView::Wait,
                StateView::Unusable(why) => AdmissionView::Refuse(
                    "this machine could not be prepared: "@ + why,
                ),
            }
        },
    }
}

pub fn consider(held: Option<&Held>, reservation: &str, caller: &str) -> (r: Admission)
    ensures
        r@ == considered(
            match held {
                Some(held) => Some(held@),
                None => None,
            },
            reservation@,
            caller@,
        ),
{
    let held = match held {
        Some(held) => held,
        None => {
            let mut why = String::from_str("we hold no reservation ");
            why.append(reservation);
            return Admission::Refuse(why);
        },
    };
    if !text::same(held.caller.as_str(), caller) {
        let mut why = reservation.to_owned();
        why.append(" is not yours");
        return Admission::Refuse(why);
    }
    match &held.state {
        State::Ready => Admission::Run(held.limits),
        State::Preparing => Admission::Wait,
        State::Unusable(why) => {
            let mut s = String::from_str("this machine could not be prepared: ");
            s.append(why.as_str());
            Admission::Refuse(s)
        },
    }
}

/// What to do next about a caller that may have to wait.
pub enum Turn {
    Run(Limits),
    Refuse(String),
    /// Where nobody has yet, say that there is a wait, and take the turn again at once.
    /// Otherwise look again in a moment.
    Wait { say: bool },
}

/// What to do next about a caller, going by what it may do, whether it was told to wait and
/// whether its patience is over.
pub open spec fn turns(
    r: Turn,
    admission: Admission,
    said: bool,
    late: bool,
) -> bool {
    match admission {
        Admission::Run(limits) => r == Turn::Run(limits),
        Admission::Refuse(why) => r == Turn::Refuse(why),
        Admission::Wait => if late && said {
            r matches Turn::Refuse(why) && why@
                == "this machine was still being prepared after 600s"@
        } else {
            r == (Turn::Wait { say: !said })
        },
    }
}

/// Waits out the making fit of a machine: a caller and a machine are told of a grant at the
/// same moment, and who dials promptly should not be turned away for being on time. `said` is
/// whether the caller was told, and `late` whether its patience is over. Who has to wait is
/// told so before anything else.
pub fn turn(admission: Admission, said: bool, late: bool) -> (r: Turn)
    ensures
        turns(r, admission, said, late),
{
    match admission {
        Admission::Run(limits) => Turn::Run(limits),
        Admission::Refuse(why) => Turn::Refuse(why),
        Admission::Wait => {
            if late && said {
                return Turn::Refuse(
                    "this machine was still being prepared after 600s".to_owned(),
                );
            }
            Turn::Wait { say: !said }
        },
    }
}

// ---------------------------------------------------------------------------
// orders
// ---------------------------------------------------------------------------

/// The reservations this machine has been told about.
pub struct Desk {
    pub held: Table<Held>,
}

impl View for Desk {
    type V = Map<Seq<char>, HeldView>;

    open spec fn view(&self) -> Map<Seq<char>, HeldView> {
        self.held.dict()
    }
}

impl Default for Desk {
    fn default() -> (r: Self)
        ensures
            r@ == Map::<Seq<char>, HeldView>::empty(),
    {
        Desk { held: Table::new() }
    }
}

/// What an order leaves to be done.
pub enum Duty {
    /// Make the machine fit, by this script where there is one, and say how it went.
    Prepare { reservation: String, script: Option<String> },
    /// Remove what the reservation left; and where a script has to clean up after it, leave
    /// the fleet first: a machine mid-scrub is not available.
    Clean { reservation: String, script: Option<String> },
}

/// What is known of tenancies after an order.
pub open spec fn after(held: Map<Seq<char>, HeldView>, order: Aadesh) -> Map<Seq<char>, HeldView> {
    match order {
        Aadesh::Assigned { reservation, caller, limits } => held.insert(
            reservation@,
            HeldView { caller: caller@, limits, state: StateView::Preparing },
        ),
        Aadesh::Freed { reservation } => held.remove(reservation@),
    }
}

/// Is this what an order leaves to be done?
pub open spec fn owes(duty: Duty, order: Aadesh, hygiene: Hygiene) -> bool {
    match order {
        Aadesh::Assigned { reservation: id, caller, limits } => {
            &&& duty matches Duty::Prepare { reservation, script }
            &&& reservation@ == id@
            &&& crate::fleet::held_text(script) == crate::fleet::held_text(hygiene.pre)
        },
        Aadesh::Freed { reservation: id } => {
            &&& duty matches Duty::Clean { reservation, script }
            &&& reservation@ == id@
            &&& crate::fleet::held_text(script) == crate::fleet::held_text(hygiene.post)
        },
    }
}

/// How it went to make a machine fit.
pub open spec fn outcome_of(went: Result<(), Seq<char>>) -> StateView {
    match went {
        Ok(_) => StateView::Ready,
        Err(why) => StateView::Unusable(why),
    }
}

/// What is known of tenancies once it is known how it went to make the machine fit.
pub open spec fn fitted(
    held: Map<Seq<char>, HeldView>,
    reservation: Seq<char>,
    went: Result<(), Seq<char>>,
) -> Map<Seq<char>, HeldView> {
    if held.dom().contains(reservation) {
        held.insert(
            reservation,
            HeldView { state: outcome_of(went), ..held[reservation] },
        )
    } else {
        held
    }
}

impl Desk {
    /// Takes an order, and says what it leaves to be done.
    pub fn obey(&mut self, order: Aadesh, hygiene: &Hygiene) -> (r: Duty)
        ensures
            final(self)@ == after(old(self)@, order),
            owes(r, order, *hygiene),
    {
        match order {
            Aadesh::Assigned { reservation, caller, limits } => {
                self.held.insert(
                    reservation.clone(),
                    Held { caller, limits, state: State::Preparing },
                );
                Duty::Prepare { reservation, script: crate::tester::copied(&hygiene.pre) }
            },
            Aadesh::Freed { reservation } => {
                let _ = self.held.remove(reservation.as_str());
                Duty::Clean { reservation, script: crate::tester::copied(&hygiene.post) }
            },
        }
    }

    /// Takes in how it went to make the machine fit. A tenancy that is over by then is left
    /// alone.
    pub fn prepared(&mut self, reservation: &str, went: Result<(), String>)
        ensures
            final(self)@ == fitted(
                old(self)@,
                reservation@,
                match went {
                    Ok(_) => Ok(()),
                    Err(why) => Err(why@),
                },
            ),
    {
        let ghost before = self@;
        if let Some(held) = self.held.remove(reservation) {
            let state = match went {
                Ok(_) => State::Ready,
                Err(why) => State::Unusable(why),
            };
            self.held.insert(
                reservation.to_owned(),
                Held { caller: held.caller, limits: held.limits, state },
            );
            assert(self@ =~= before.insert(reservation@, self@[reservation@]));
        }
    }

    /// May this caller run here?
    pub fn may_run(&self, reservation: &str, caller: &str) -> (r: Admission)
        ensures
            r@ == considered(
                if self@.dom().contains(reservation@) {
                    Some(self@[reservation@])
                } else {
                    None
                },
                reservation@,
                caller@,
            ),
    {
        consider(self.held.get(reservation), reservation, caller)
    }
}

/// Nothing runs on a machine but for the caller whom the controller assigned it to, and only
/// once it was made fit.
pub proof fn law_a_machine_serves_its_tenant_only(
    held: Option<HeldView>,
    reservation: Seq<char>,
    caller: Seq<char>,
)
    requires
        considered(held, reservation, caller) is Run,
    ensures
        held matches Some(h) && h.caller == caller && h.state is Ready,
{
}

/// A machine is not ready the instant it is assigned, and it serves nobody once it was freed.
pub proof fn law_a_tenancy_begins_with_preparation_and_ends_when_freed(
    held: Map<Seq<char>, HeldView>,
    reservation: String,
    holder: String,
    limits: Limits,
    caller: Seq<char>,
)
    ensures
        ({
            let begun = after(
                held,
                Aadesh::Assigned { reservation, caller: holder, limits },
            );
            &&& begun.dom().contains(reservation@)
            &&& !(considered(Some(begun[reservation@]), reservation@, caller) is Run)
            &&& !after(begun, Aadesh::Freed { reservation }).dom().contains(reservation@)
        }),
{
}

// ---------------------------------------------------------------------------
// where work is done
// ---------------------------------------------------------------------------

/// Where a reservation's working trees stand, so that the whole lot can be deleted when it
/// ends.
pub open spec fn trees_of(home: Seq<char>, reservation: Seq<char>) -> Seq<char> {
    path::join_of(path::join_of(home, "work"@), reservation)
}

/// Where one shard works. Two shards of one run must not share a tree.
pub open spec fn tree_of(home: Seq<char>, reservation: Seq<char>, index: u32) -> Seq<char> {
    path::join_of(
        trees_of(home, reservation),
        "shard-"@ + text::decimal_of((index + 1) as nat),
    )
}

pub fn reservation_dir(home: &str, reservation: &str) -> (r: String)
    ensures
        r@ == trees_of(home@, reservation@),
{
    path::join(path::join(home, "work").as_str(), reservation)
}

pub fn work_dir(home: &str, reservation: &str, index: u32) -> (r: String)
    ensures
        r@ == tree_of(home@, reservation@, index),
{
    let mut own = String::from_str("shard-");
    own.append(text::decimal(index as u64 + 1).as_str());
    path::join(reservation_dir(home, reservation).as_str(), own.as_str())
}

/// Where a command runs.
pub enum Place {
    /// In code that is fetched first.
    Fetched(Workspace),
    /// In a directory that is there already, or where this machine stands.
    Here(Option<String>),
}

pub const WHICH_ONE: &'static str =
    "asked for both a workspace and a working directory — which one?";

/// Where a command was asked to run.
pub open spec fn places(
    r: Result<Place, String>,
    workspace: Option<Workspace>,
    cwd: Option<String>,
) -> bool {
    match (workspace, cwd) {
        (None, cwd) => r == Ok::<Place, String>(Place::Here(cwd)),
        (Some(w), None) => r == Ok::<Place, String>(Place::Fetched(w)),
        (Some(_), Some(_)) => r matches Err(why) && why@ == WHICH_ONE@,
    }
}

/// Where a command was asked to run.
pub fn place(workspace: Option<Workspace>, cwd: Option<String>) -> (r: Result<Place, String>)
    ensures
        places(r, workspace, cwd),
{
    match workspace {
        None => Ok(Place::Here(cwd)),
        Some(w) => {
            if cwd.is_some() {
                return Err(WHICH_ONE.to_owned());
            }
            Ok(Place::Fetched(w))
        },
    }
}

/// Does a path stand in a tree, both written out in full?
pub open spec fn in_tree(root: Seq<char>, at: Seq<char>) -> bool {
    ||| at == root
    ||| text::begins(at, root + "/"@)
    ||| root == "/"@ && text::begins(at, "/"@)
}

/// Does a directory of the code stay in it? Both paths have to be the real ones.
pub fn inside(root: &str, at: &str) -> (r: bool)
    ensures
        r == in_tree(root@, at@),
{
    if text::same(at, root) {
        return true;
    }
    let mut below = root.to_owned();
    below.append("/");
    if text::starts_with(at, below.as_str()) {
        return true;
    }
    text::same(root, "/") && text::starts_with(at, "/")
}

/// How the code is fetched: one commit is all a run needs.
pub open spec fn shallow_of(repo: Seq<char>, git_ref: Seq<char>) -> Seq<char> {
    "git init -q . && git remote add origin "@ + repo + " && git fetch -q --depth 1 origin "@
        + git_ref + " && git checkout -q FETCH_HEAD"@
}

/// How the code is fetched where a server does not hand out one commit.
pub open spec fn full_of(repo: Seq<char>, git_ref: Seq<char>) -> Seq<char> {
    "git clone -q "@ + repo + " . && git checkout -q "@ + git_ref
}

pub fn shallow(w: &Workspace) -> (r: String)
    ensures
        r@ == shallow_of(w.repo@, w.git_ref@),
{
    let mut r = String::from_str("git init -q . && git remote add origin ");
    r.append(w.repo.as_str());
    r.append(" && git fetch -q --depth 1 origin ");
    r.append(w.git_ref.as_str());
    r.append(" && git checkout -q FETCH_HEAD");
    r
}

pub fn full(w: &Workspace) -> (r: String)
    ensures
        r@ == full_of(w.repo@, w.git_ref@),
{
    let mut r = String::from_str("git clone -q ");
    r.append(w.repo.as_str());
    r.append(" . && git checkout -q ");
    r.append(w.git_ref.as_str());
    r
}

/// What is said where the code could not be fetched.
pub fn unfetched(w: &Workspace) -> (r: Outcome)
    ensures
        r matches Outcome::No { reason } && reason@ == "could not get "@ + w.git_ref@ + " from "@
            + w.repo@ + " — is it pushed, and can this machine read it?"@,
{
    let mut reason = String::from_str("could not get ");
    reason.append(w.git_ref.as_str());
    reason.append(" from ");
    reason.append(w.repo.as_str());
    reason.append(" — is it pushed, and can this machine read it?");
    Outcome::No { reason }
}

/// Did a command succeed?
pub open spec fn succeeded(outcome: Outcome) -> bool {
    outcome matches Outcome::Done { code, .. } && code == Some(0i32)
}

pub fn success(outcome: &Outcome) -> (r: bool)
    ensures
        r == succeeded(*outcome),
{
    match outcome {
        Outcome::Done { code: Some(code), .. } => *code == 0,
        _ => false,
    }
}

/// What to answer to how the setup went.
pub open spec fn judges_setup(
    r: Option<Outcome>,
    setup: Seq<char>,
    outcome: Outcome,
) -> bool {
    match outcome {
        Outcome::Done { worker, index, code, artifacts } => if code == Some(0i32) {
            r is None
        } else {
            &&& r matches Some(Outcome::No { reason })
            &&& reason@ == "setup "@ + text::quoted_of(setup) + " failed: "@
                + crate::described(code)
        },
        other => r == Some(other),
    }
}

/// What to answer where the setup did not succeed, and nothing where it did. Setup failing is
/// not the suite failing, and saying so saves an hour of reading test output.
pub fn setup_failed(setup: &str, outcome: Outcome) -> (r: Option<Outcome>)
    ensures
        judges_setup(r, setup@, outcome),
{
    match outcome {
        Outcome::Done { worker: _, index: _, code, artifacts: _ } => {
            let fine = match code {
                Some(code) => code == 0,
                None => false,
            };
            if fine {
                return None;
            }
            let mut reason = String::from_str("setup ");
            reason.append(text::quoted(setup).as_str());
            reason.append(" failed: ");
            reason.append(crate::describe(code).as_str());
            Some(Outcome::No { reason })
        },
        other => Some(other),
    }
}

/// How long a command may run, in seconds.
pub open spec fn seconds_of(limits: Limits) -> u64 {
    if limits.max_seconds == 0 {
        1
    } else {
        limits.max_seconds
    }
}

/// How long a command may run, in seconds: at least one.
pub fn allowance(limits: Limits) -> (r: u64)
    ensures
        r == seconds_of(limits),
{
    if limits.max_seconds == 0 {
        1
    } else {
        limits.max_seconds
    }
}

/// What is said of a command that ran past its limit and was killed.
pub fn killed(limits: Limits) -> (r: Outcome)
    ensures
        r matches Outcome::No { reason } && reason@ == "killed after "@ + text::decimal_of(
            limits.max_seconds as nat,
        ) + "s"@,
{
    let mut reason = String::from_str("killed after ");
    reason.append(text::decimal(limits.max_seconds).as_str());
    reason.append("s");
    Outcome::No { reason }
}

/// How an operator's script went.
pub open spec fn judges_script(
    r: Result<(), String>,
    script: Seq<char>,
    status: Option<(bool, &str)>,
) -> bool {
    match status {
        Some((fine, shown)) => if fine {
            r is Ok
        } else {
            r matches Err(why) && why@ == text::quoted_of(script) + " failed: "@ + shown@
        },
        None => r matches Err(why) && why@ == text::quoted_of(script)
            + " was still running after 600s"@,
    }
}

/// How an operator's script went: nothing where it succeeded, and why not where it did not.
/// No status means that it was still running when its time was over.
pub fn script_went(script: &str, status: Option<(bool, &str)>) -> (r: Result<(), String>)
    ensures
        judges_script(r, script@, status),
{
    match status {
        Some((fine, shown)) => {
            if fine {
                return Ok(());
            }
            let mut why = text::quoted(script);
            why.append(" failed: ");
            why.append(shown);
            Err(why)
        },
        None => {
            let mut why = text::quoted(script);
            why.append(" was still running after 600s");
            Err(why)
        },
    }
}

/// Every shard gets a tree of its own, under the reservation that pays for it.
pub proof fn law_every_shard_gets_its_own_tree(
    home: Seq<char>,
    reservation: Seq<char>,
    one: u32,
    other: u32,
)
    requires
        one != other,
    ensures
        tree_of(home, reservation, one) != tree_of(home, reservation, other),
        text::begins(tree_of(home, reservation, one), trees_of(home, reservation)),
{
    let root = trees_of(home, reservation);
    let a = text::decimal_of((one + 1) as nat);
    let b = text::decimal_of((other + 1) as nat);
    crate::tester::lemma_shard_name(one);
    crate::tester::lemma_shard_name(other);
    text::lemma_decimal_reads_back((one + 1) as nat);
    text::lemma_decimal_reads_back((other + 1) as nat);
    let x = tree_of(home, reservation, one);
    let y = tree_of(home, reservation, other);
    let head = if root.len() == 0 || text::ends(root, "/"@) {
        root
    } else {
        root + "/"@
    };
    let own = "shard-"@ + a;
    let own_too = "shard-"@ + b;
    assert(x =~= head + own);
    assert(y =~= head + own_too);
    assert(x.take(root.len() as int) =~= root);
    if x == y {
        assert(x.skip(head.len() as int) =~= own);
        assert(y.skip(head.len() as int) =~= own_too);
        let n = "shard-"@.len() as int;
        assert(own.skip(n) =~= a);
        assert(own_too.skip(n) =~= b);
    }
}

/// A caller runs exactly where the machine was assigned to it under that reservation and is fit,
/// within the limits that came with it; it waits exactly while the machine is being made fit,
/// and is refused otherwise.
pub proof fn law_whoever_a_machine_was_assigned_to_runs_there(
    held: Map<Seq<char>, HeldView>,
    reservation: Seq<char>,
    caller: Seq<char>,
)
    requires
        held.dom().contains(reservation),
    ensures
        ({
            let h = held[reservation];
            let r = considered(Some(h), reservation, caller);
            &&& h.caller == caller && h.state is Ready ==> r == AdmissionView::Run(h.limits)
            &&& h.caller == caller && h.state is Preparing ==> r == AdmissionView::Wait
            &&& h.caller == caller && h.state is Unusable ==> r is Refuse
            &&& h.caller != caller ==> r is Refuse
        }),
        considered(None, reservation, caller) is Refuse,
{
}

/// An assignment begins a tenancy for the caller it names, and touches no other; being freed
/// ends the one it names, and no other.
pub proof fn law_an_order_is_about_one_reservation(
    held: Map<Seq<char>, HeldView>,
    reservation: String,
    caller: String,
    limits: Limits,
    other: Seq<char>,
)
    requires
        other != reservation@,
    ensures
        ({
            let begun = after(held, Aadesh::Assigned { reservation, caller, limits });
            let ended = after(held, Aadesh::Freed { reservation });
            &&& begun.dom().contains(reservation@)
            &&& begun[reservation@].caller == caller@
            &&& begun[reservation@].limits == limits
            &&& begun[reservation@].state is Preparing
            &&& !ended.dom().contains(reservation@)
            &&& begun.dom().contains(other) <==> held.dom().contains(other)
            &&& ended.dom().contains(other) <==> held.dom().contains(other)
            &&& held.dom().contains(other) ==> begun[other] == held[other] && ended[other]
                == held[other]
        }),
{
}

/// The machine is made fit by the operator's first script before a tenancy and cleaned by the
/// second one after it.
pub proof fn law_a_machine_is_made_fit_before_and_cleaned_after(
    duty: Duty,
    order: Aadesh,
    hygiene: Hygiene,
)
    requires
        owes(duty, order, hygiene),
    ensures
        order matches Aadesh::Assigned { reservation: id, .. } ==> {
            &&& duty matches Duty::Prepare { reservation, script }
            &&& reservation@ == id@
            &&& hygiene.pre is None <==> script is None
            &&& hygiene.pre matches Some(own) ==> script matches Some(s) && s@ == own@
        },
        order matches Aadesh::Freed { reservation: id } ==> {
            &&& duty matches Duty::Clean { reservation, script }
            &&& reservation@ == id@
            &&& hygiene.post is None <==> script is None
            &&& hygiene.post matches Some(own) ==> script matches Some(s) && s@ == own@
        },
{
}

/// A machine is ready exactly where making it fit went well, and unusable with the reason where
/// it did not; whose it is and for how long does not change, nor does any other tenancy, and one
/// that is over stays over.
pub proof fn law_a_machine_is_ready_once_it_was_made_fit(
    held: Map<Seq<char>, HeldView>,
    reservation: Seq<char>,
    went: Result<(), Seq<char>>,
    other: Seq<char>,
)
    requires
        other != reservation,
    ensures
        ({
            let next = fitted(held, reservation, went);
            &&& next.dom() == held.dom()
            &&& held.dom().contains(reservation) ==> {
                &&& next[reservation].caller == held[reservation].caller
                &&& next[reservation].limits == held[reservation].limits
                &&& went is Ok ==> next[reservation].state is Ready
                &&& went matches Err(why) ==> next[reservation].state == StateView::Unusable(why)
            }
            &&& held.dom().contains(other) ==> next[other] == held[other]
        }),
{
    if held.dom().contains(reservation) {
        assert(held.dom().insert(reservation) =~= held.dom());
    }
}

/// Whoever may run runs, whoever may not is refused; whoever has to wait is told so first, then
/// waits, and is refused only once their patience is over.
pub proof fn law_whoever_has_to_wait_is_told_so(r: Turn, admission: Admission, said: bool, late: bool)
    requires
        turns(r, admission, said, late),
    ensures
        admission matches Admission::Run(limits) ==> r == Turn::Run(limits),
        admission matches Admission::Refuse(why) ==> r == Turn::Refuse(why),
        admission is Wait && !said ==> r == (Turn::Wait { say: true }),
        admission is Wait && said && !late ==> r == (Turn::Wait { say: false }),
        admission is Wait && said && late ==> r is Refuse,
{
}

/// A command runs as long as it was granted, and a second at least.
pub proof fn law_a_command_runs_as_long_as_it_was_granted(limits: Limits)
    ensures
        limits.max_seconds > 0 ==> seconds_of(limits) == limits.max_seconds,
        limits.max_seconds == 0 ==> seconds_of(limits) == 1,
{
}

/// A command runs in code that is fetched or in a directory that is there, and never in both.
pub proof fn law_a_command_runs_in_one_place(
    r: Result<Place, String>,
    workspace: Option<Workspace>,
    cwd: Option<String>,
)
    requires
        places(r, workspace, cwd),
    ensures
        r is Err <==> workspace is Some && cwd is Some,
        (workspace, cwd) matches (Some(w), None) ==> r == Ok::<Place, String>(Place::Fetched(w)),
        workspace is None ==> r == Ok::<Place, String>(Place::Here(cwd)),
{
}

/// A path stands in a tree where it is the tree's own or leads on from it behind a `/`; one that
/// only begins with the same letters does not.
pub proof fn law_a_tree_ends_at_its_name(root: Seq<char>, more: Seq<char>)
    requires
        root.len() > 1,
    ensures
        in_tree(root, root),
        in_tree(root, root + "/"@ + more),
        more.len() > 0 && more[0] != '/' ==> !in_tree(root, root + more),
{
    reveal_strlit("/");
    let below = root + "/"@ + more;
    assert(below.take(root.len() as int + 1) =~= root + "/"@);
    if more.len() > 0 {
        let beside = root + more;
        if text::begins(beside, root + "/"@) {
            assert(beside.take(root.len() as int + 1)[root.len() as int] == more[0]);
            assert((root + "/"@)[root.len() as int] == '/');
        }
        assert(beside.len() != root.len());
    }
}

/// A setup that succeeded leaves nothing to answer; one that failed is answered as that, and
/// what went wrong before it ran is passed on.
pub proof fn law_a_failed_setup_is_not_a_failed_suite(
    r: Option<Outcome>,
    setup: Seq<char>,
    outcome: Outcome,
)
    requires
        judges_setup(r, setup, outcome),
    ensures
        r is None <==> (outcome matches Outcome::Done { code, .. } && code == Some(0i32)),
        outcome matches Outcome::Done { code, .. } && code != Some(0i32) ==> r matches Some(
            Outcome::No { .. },
        ),
        !(outcome is Done) ==> r == Some(outcome),
{
}

/// A script went well exactly where it ended, in time, with success.
pub proof fn law_a_script_that_never_ends_did_not_go_well(
    r: Result<(), String>,
    script: Seq<char>,
    status: Option<(bool, &str)>,
)
    requires
        judges_script(r, script, status),
    ensures
        r is Ok <==> (status matches Some((fine, _)) && fine),
{
}

/// Both ways of fetching name where the code is and which of it is wanted.
pub proof fn law_what_is_fetched_is_what_was_asked_for(repo: Seq<char>, git_ref: Seq<char>)
    ensures
        shallow_of(repo, git_ref) == "git init -q . && git remote add origin "@ + repo
            + " && git fetch -q --depth 1 origin "@ + git_ref + " && git checkout -q FETCH_HEAD"@,
        full_of(repo, git_ref) == "git clone -q "@ + repo + " . && git checkout -q "@ + git_ref,
{
}

/// A command succeeded exactly where it ended with nought.
pub proof fn law_only_nought_is_success(outcome: Outcome)
    ensures
        succeeded(outcome) <==> (outcome matches Outcome::Done { code, .. } && code == Some(0i32)),
{
}

/// The trees of a reservation stand together below the machine's own folder, under its id.
pub proof fn law_trees_stand_below_the_reservation(
    home: Seq<char>,
    reservation: Seq<char>,
    index: u32,
)
    requires
        home.len() > 0,
        home.last() != '/',
        reservation.len() > 0,
        text::lacks(reservation, '/'),
    ensures
        trees_of(home, reservation) == home + "/work/"@ + reservation,
        tree_of(home, reservation, index) == home + "/work/"@ + reservation + "/shard-"@
            + text::decimal_of((index + 1) as nat),
{
    reveal_strlit("/");
    reveal_strlit("work");
    reveal_strlit("/work/");
    reveal_strlit("/shard-");
    reveal_strlit("shard-");
    path::law_a_name_is_looked_for_in_its_folder(home, "work"@);
    let work = home + "/"@ + "work"@;
    path::law_a_name_is_looked_for_in_its_folder(work, reservation);
    let trees = work + "/"@ + reservation;
    assert(trees =~= home + "/work/"@ + reservation);
    assert(trees.last() == reservation.last());
    let own = "shard-"@ + text::decimal_of((index + 1) as nat);
    assert(own[0] == 's');
    path::law_a_name_is_looked_for_in_its_folder(trees, own);
    assert(trees + "/"@ + own =~= trees + "/shard-"@ + text::decimal_of((index + 1) as nat));
}

} // verus!
