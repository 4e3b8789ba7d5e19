//! One conversation with a caller: who they are, and what comes of each thing they say.
//!
//! What can be answered from what the controller holds is answered here. What needs the
//! network, the directory or a model is handed back as the next thing to do.

use vstd::prelude::*;
use vstd::string::*;

use crate::admin::AdminView;
use crate::attest;
use crate::attest::{
    IssuersView, Keys, KeysView, Presented, PresentedView, Step, StepView, Vouched, VouchedView,
};
use crate::book;
use crate::controller::{Caller, CallerView, Control};
use crate::directory;
use crate::directory::{Tenancy, TenancyView};
use crate::enrolled;
use crate::enrolled::{Enrolled, EnrolledView};
use crate::fleet;
use crate::fleet::Closed;
use crate::proto::{Answer, Knock, Look, Nivedana, Plea, Sight, Upload, Verdict};
use crate::sight;
use crate::tenant::TenantView;
use crate::text;

verus! {

// ---------------------------------------------------------------------------
// letting a caller in
// ---------------------------------------------------------------------------

/// What comes of a knock.
pub enum Admission {
    Refused(String),
    Admitted(Caller),
    /// The keys of the issuer have to be fetched first.
    Fetch(Presented),
}

#[verifier::ext_equal]
pub enum AdmissionView {
    Refused(Seq<char>),
    Admitted(CallerView),
    Fetch(PresentedView),
}

impl View for Admission {
    type V = AdmissionView;

    open spec fn view(&self) -> AdmissionView {
        match *self {
            Admission::Refused(why) => AdmissionView::Refused(why@),
            Admission::Admitted(who) => AdmissionView::Admitted(who@),
            Admission::Fetch(p) => AdmissionView::Fetch(p@),
        }
    }
}

pub const NO_PROOF: &'static str =
    "no proof of who you are — resolve me as `name@org`, or send an attestation";

pub const NO_ISSUERS: &'static str =
    "this controller trusts no issuers, so an attestation proves nothing here \
     — the host lists them in issuers.toml";

/// Whom a token lets in.
pub open spec fn let_in(step: StepView) -> AdmissionView {
    match step {
        StepView::Refused(why) => AdmissionView::Refused(why),
        StepView::Fetch(p) => AdmissionView::Fetch(p),
        StepView::Settled(v) => AdmissionView::Admitted(CallerView::attested(v.alias, v.facts)),
    }
}

/// What comes of a caller once the keys of the issuer of its token were asked for.
pub open spec fn received(
    before: IssuersView,
    after: IssuersView,
    p: PresentedView,
    fetched: Result<KeysView, Seq<char>>,
    result: Result<CallerView, Seq<char>>,
) -> bool {
    exists|vouched: Result<VouchedView, Seq<char>>|
        {
            &&& #[trigger] attest::resumed(before, after, p, fetched, vouched)
            &&& result == match vouched {
                Ok(v) => Ok(CallerView::attested(v.alias, v.facts)),
                Err(why) => Err(why),
            }
        }
}

/// Who is this, if we should talk to them at all?
///
/// A ticket first, because it is the cheaper check and the common one. Then a key that was
/// remembered: dialling from a key is possession of it. An attestation is for callers that had
/// nothing to enrol. `sealed` is what checking the ticket's seal gave, where there is one.
pub open spec fn admitted(
    name: Seq<char>,
    admins: Seq<(Seq<char>, AdminView)>,
    remembered: Seq<(Seq<char>, EnrolledView)>,
    issuers: IssuersView,
    knock: Knock,
    key: Seq<char>,
    sealed: Result<(), String>,
    now: u64,
) -> AdmissionView {
    match knock.ticket {
        Some(ticket) => match sealed {
            Err(why) => AdmissionView::Refused(why@),
            Ok(_) => if ticket.name@ != name {
                AdmissionView::Refused("that ticket is for `"@ + ticket.name@ + "`"@)
            } else {
                AdmissionView::Admitted(
                    CallerView::from(fleet::held_text(ticket.alias)).with_admin(admins, key),
                )
            },
        },
        None => match book::look_up(remembered, key) {
            Some(known) => AdmissionView::Admitted(
                CallerView::enrolled(known.alias, known.issuer),
            ),
            None => match knock.attestation {
                Some(token) => if issuers.believed.len() == 0 {
                    AdmissionView::Refused(NO_ISSUERS@)
                } else {
                    let_in(attest::verified(issuers, token@, key, now))
                },
                None => AdmissionView::Refused(NO_PROOF@),
            },
        },
    }
}

impl Control {
    /// Lets a caller in, or says why not, at a moment.
    pub fn receive_at(&self, knock: &Knock, key: &str, sealed: Result<(), String>, now: u64) -> (r:
        Admission)
        ensures
            r@ == admitted(
                self.config.name@,
                self.admins@,
                self.enrolled@,
                self.issuers@,
                *knock,
                key@,
                sealed,
                now,
            ),
    {
        if let Some(ticket) = &knock.ticket {
            if let Err(why) = sealed {
                return Admission::Refused(why);
            }
            if !text::same(ticket.name.as_str(), self.config.name.as_str()) {
                let mut why = String::from_str("that ticket is for `");
                why.append(ticket.name.as_str());
                why.append("`");
                return Admission::Refused(why);
            }
            let alias = match &ticket.alias {
                Some(alias) => Some(alias.clone()),
                None => None,
            };
            return Admission::Admitted(Caller::from(alias).with_admin(&self.admins, key));
        }
        if let Some(known) = self.enrolled.who(key) {
            return Admission::Admitted(
                Caller::enrolled(known.alias.clone(), known.issuer.clone()),
            );
        }
        let token = match &knock.attestation {
            Some(token) => token,
            None => return Admission::Refused(NO_PROOF.to_owned()),
        };
        if self.issuers.is_empty() {
            return Admission::Refused(NO_ISSUERS.to_owned());
        }
        match self.issuers.verify_at(token.as_str(), key, now) {
            Step::Refused(why) => Admission::Refused(why),
            Step::Fetch(p) => Admission::Fetch(p),
            Step::Settled(v) => Admission::Admitted(Caller::attested(v.alias, v.facts)),
        }
    }

    /// Lets a caller in, or says why not, now.
    pub fn receive(&self, knock: &Knock, key: &str, sealed: Result<(), String>) -> (r: Admission)
        ensures
            exists|now: u64|
                r@ == #[trigger] admitted(
                    self.config.name@,
                    self.admins@,
                    self.enrolled@,
                    self.issuers@,
                    *knock,
                    key@,
                    sealed,
                    now,
                ),
    {
        let now = fleet::now();
        self.receive_at(knock, key, sealed, now)
    }

    /// Goes on with a caller once the issuer's keys were asked for.
    pub fn receive_with(&mut self, p: &Presented, fetched: Result<Keys, String>) -> (r: Result<
        Caller,
        String,
    >)
        ensures
            final(self).config == old(self).config,
            final(self).enrolled == old(self).enrolled,
            final(self).admins == old(self).admins,
            final(self).fleet == old(self).fleet,
            final(self).issuers.config == old(self).issuers.config,
            received(
                old(self).issuers@,
                final(self).issuers@,
                p@,
                attest::keys_told(fetched),
                match r {
                    Ok(who) => Ok(who@),
                    Err(why) => Err(why@),
                },
            ),
    {
        let ghost keys = attest::keys_told(fetched);
        let vouched = self.issuers.resume(p, fetched);
        assert(attest::resumed(
            old(self).issuers@,
            self.issuers@,
            p@,
            keys,
            attest::answer(vouched),
        ));
        match vouched {
            Ok(v) => Ok(Caller::attested(v.alias, v.facts)),
            Err(why) => Err(why),
        }
    }
}

/// Nobody is let in as an admin but one of our own devices, with a ticket that names this
/// controller and a key on the host's list.
pub proof fn law_an_admin_comes_by_ticket_and_key(
    name: Seq<char>,
    admins: Seq<(Seq<char>, AdminView)>,
    remembered: Seq<(Seq<char>, EnrolledView)>,
    issuers: IssuersView,
    knock: Knock,
    key: Seq<char>,
    sealed: Result<(), String>,
    now: u64,
    who: CallerView,
)
    requires
        admitted(name, admins, remembered, issuers, knock, key, sealed, now)
            == AdmissionView::Admitted(who),
        who.admin is Some,
    ensures
        knock.ticket matches Some(ticket) && ticket.alias is None && ticket.name@ == name,
        sealed is Ok,
        book::knows(admins, key),
        who.sibling,
{
}

/// Nobody is let in without proof: a sealed ticket for this controller, a key that was
/// remembered, or a token that an issuer believed here made for this key.
pub proof fn law_nobody_is_let_in_without_proof(
    name: Seq<char>,
    admins: Seq<(Seq<char>, AdminView)>,
    remembered: Seq<(Seq<char>, EnrolledView)>,
    issuers: IssuersView,
    knock: Knock,
    key: Seq<char>,
    sealed: Result<(), String>,
    now: u64,
    who: CallerView,
)
    requires
        admitted(name, admins, remembered, issuers, knock, key, sealed, now)
            == AdmissionView::Admitted(who),
    ensures
        ({
            ||| knock.ticket is Some && sealed is Ok && knock.ticket->0.name@ == name
            ||| knock.ticket is None && book::knows(remembered, key)
            ||| knock.attestation is Some && attest::verified(
                issuers,
                knock.attestation->0@,
                key,
                now,
            ) is Settled
        }),
{
}

// ---------------------------------------------------------------------------
// remembering keys
// ---------------------------------------------------------------------------

pub const NEEDS_TOKEN: &'static str =
    "enrolling needs an attestation on this same connection, so the \
     key remembered is the key a token named";

pub const MAY_NOT_ENROL: &'static str =
    "tokens from this issuer prove who is asking but may not enrol a key — \
     it proves a job rather than a machine. The host decides, with \
     `enrol = true` in issuers.toml";

pub const NOT_YOURS: &'static str = "that key is not yours to forget";

/// What is remembered of a key that somebody proved to be theirs.
pub open spec fn entry_of(v: VouchedView, key: Seq<char>, note: Option<Seq<char>>, at: u64) -> EnrolledView {
    EnrolledView {
        key,
        alias: v.alias,
        issuer: if v.facts.dom().contains("issuer"@) {
            v.facts["issuer"@]
        } else {
            Seq::empty()
        },
        at,
        note,
    }
}

/// What comes of remembering the key that a token named.
pub open spec fn enrols(
    before: Seq<(Seq<char>, EnrolledView)>,
    after: Seq<(Seq<char>, EnrolledView)>,
    v: VouchedView,
    key: Seq<char>,
    note: Option<Seq<char>>,
    at: u64,
    result: Result<(), Seq<char>>,
) -> bool {
    if v.may_enrol {
        &&& result is Ok
        &&& after == book::remembered(before, key, entry_of(v, key, note, at))
    } else {
        &&& result == Err::<(), Seq<char>>(MAY_NOT_ENROL@)
        &&& after == before
    }
}

/// What comes of forgetting the key that is named, or the one in use where none is.
pub open spec fn forgets(
    before: Seq<(Seq<char>, EnrolledView)>,
    after: Seq<(Seq<char>, EnrolledView)>,
    alias: Seq<char>,
    mine: Seq<char>,
    which: Option<Seq<char>>,
    result: Result<EnrolledView, Seq<char>>,
) -> bool {
    let target = match which {
        Some(key) => key,
        None => mine,
    };
    match kept(before, alias, target) {
        None => {
            &&& result matches Ok(gone)
            &&& book::look_up(before, target) == Some(gone)
            &&& after == book::forgotten(before, target)
        },
        Some(why) => result == Err::<EnrolledView, Seq<char>>(why) && after == before,
    }
}

/// Which key is meant, and why it cannot be forgotten, where it cannot. One's own, or another
/// of one's own: somebody with three laptops should be able to revoke the one on the train
/// from either of the others, and nobody else's.
pub open spec fn kept(
    remembered: Seq<(Seq<char>, EnrolledView)>,
    alias: Seq<char>,
    target: Seq<char>,
) -> Option<Seq<char>> {
    match book::look_up(remembered, target) {
        Some(e) => if e.alias != alias {
            Some(NOT_YOURS@)
        } else {
            None
        },
        None => Some("this controller does not remember "@ + target),
    }
}

impl Control {
    /// Remembers the key a token named.
    ///
    /// Only where the issuer is one whose tokens may: a build token cannot leave a permanent
    /// key behind.
    pub fn enrol(&mut self, v: &Vouched, key: &str, note: Option<String>, at: u64) -> (r: Result<
        (),
        String,
    >)
        ensures
            final(self).config == old(self).config,
            final(self).issuers == old(self).issuers,
            final(self).admins == old(self).admins,
            final(self).fleet == old(self).fleet,
            enrols(
                old(self).enrolled@,
                final(self).enrolled@,
                v@,
                key@,
                fleet::held_text(note),
                at,
                match r {
                    Ok(_) => Ok(()),
                    Err(why) => Err(why@),
                },
            ),
            r is Err ==> final(self).enrolled == old(self).enrolled,
    {
        if !v.may_enrol {
            return Err(MAY_NOT_ENROL.to_owned());
        }
        let issuer = match v.facts.get("issuer") {
            Some(issuer) => issuer.clone(),
            None => String::new(),
        };
        let entry = Enrolled {
            key: key.to_owned(),
            alias: v.alias.clone(),
            issuer,
            at,
            note,
        };
        assert(entry@ =~= entry_of(v@, key@, fleet::held_text(note), at));
        self.enrolled.remember(entry);
        Ok(())
    }

    /// Stops remembering a key: one's own, or another that stands under the same alias.
    pub fn forget(&mut self, alias: &str, mine: &str, which: Option<&str>) -> (r: Result<
        Enrolled,
        String,
    >)
        ensures
            final(self).config == old(self).config,
            final(self).issuers == old(self).issuers,
            final(self).admins == old(self).admins,
            final(self).fleet == old(self).fleet,
            forgets(
                old(self).enrolled@,
                final(self).enrolled@,
                alias@,
                mine@,
                match which {
                    Some(key) => Some(key@),
                    None => None,
                },
                match r {
                    Ok(gone) => Ok(gone@),
                    Err(why) => Err(why@),
                },
            ),
            r is Err ==> final(self).enrolled == old(self).enrolled,
    {
        let target = match which {
            Some(key) => key,
            None => mine,
        };
        match self.enrolled.who(target) {
            Some(e) => {
                if !text::same(e.alias.as_str(), alias) {
                    return Err(NOT_YOURS.to_owned());
                }
            },
            None => {
                let mut why = String::from_str("this controller does not remember ");
                why.append(target);
                return Err(why);
            },
        }
        match self.enrolled.forget(target) {
            Some(gone) => Ok(gone),
            None => Err("nothing to forget".to_owned()),
        }
    }
}

/// The verdict on a change to the book of keys, once it was written down or was not.
pub fn recorded(saved: Result<(), String>) -> (r: Verdict)
    ensures
        match saved {
            Ok(_) => r is Acknowledged,
            Err(e) => {
                &&& r matches Verdict::Deny { rationale }
                &&& rationale@ == "could not record it: "@ + e@
            },
        },
{
    match saved {
        Ok(_) => Verdict::Acknowledged,
        Err(e) => {
            let mut rationale = String::from_str("could not record it: ");
            rationale.append(e.as_str());
            Verdict::Deny { rationale }
        },
    }
}

// ---------------------------------------------------------------------------
// replacing the rules
// ---------------------------------------------------------------------------

/// Why a caller may not replace a tenant's rules, where they may not. Unknown and
/// unauthorised are told apart, because the fix is different, and so is a tenant that
/// nobody may write for (`nobody`).
pub open spec fn may_not_write(
    alias: Seq<char>,
    found: Result<Option<TenancyView>, Seq<char>>,
    nobody: bool,
) -> Option<Seq<char>> {
    match found {
        Ok(Some(who)) => if who.may_write {
            None
        } else if nobody {
            Some(
                "tenant `"@ + who.tenant
                    + "` has no admins, so nobody may change its policy — the host sets them in tenant.toml"@,
            )
        } else {
            Some(
                alias + " may run tests for `"@ + who.tenant
                    + "` but not change its rules — whoever runs this controller decides that, not the rules themselves"@,
            )
        },
        Ok(None) => Some(alias + " is not a tenant of this controller"@),
        Err(e) => Some("could not look you up: "@ + e),
    }
}

pub open spec fn look_up_view(found: Result<Option<Tenancy>, String>) -> Result<
    Option<TenancyView>,
    Seq<char>,
> {
    match found {
        Ok(Some(who)) => Ok(Some(who@)),
        Ok(None) => Ok(None),
        Err(e) => Err(e@),
    }
}

/// Whose rules a caller may replace. `nobody` says that their tenant has no admins at all.
pub fn may_replace(alias: &str, found: Result<Option<Tenancy>, String>, nobody: bool) -> (r: Result<
    String,
    String,
>)
    ensures
        match r {
            Ok(tenant) => {
                &&& may_not_write(alias@, look_up_view(found), nobody) is None
                &&& found matches Ok(Some(who))
                &&& tenant@ == who@.tenant
            },
            Err(why) => may_not_write(alias@, look_up_view(found), nobody) == Some(why@),
        },
{
    match found {
        Ok(Some(who)) => {
            if who.may_write {
                return Ok(who.tenant);
            }
            if nobody {
                let mut why = String::from_str("tenant `");
                why.append(who.tenant.as_str());
                why.append(
                    "` has no admins, so nobody may change its policy — the host sets them in tenant.toml",
                );
                return Err(why);
            }
            let mut why = alias.to_owned();
            why.append(" may run tests for `");
            why.append(who.tenant.as_str());
            why.append(
                "` but not change its rules — whoever runs this controller decides that, not the rules themselves",
            );
            Err(why)
        },
        Ok(None) => {
            let mut why = alias.to_owned();
            why.append(" is not a tenant of this controller");
            Err(why)
        },
        Err(e) => {
            let mut why = String::from_str("could not look you up: ");
            why.append(e.as_str());
            Err(why)
        },
    }
}

/// Absent admins means nobody, not everybody: whoever asks to change the rules of a tenant
/// without admins is told that it has none, and where they are set.
pub proof fn law_absent_admins_means_nobody(t: TenantView, caller: Seq<char>)
    requires
        t.terms.admins.len() == 0,
    ensures
        !t.may_write(caller),
        may_not_write(caller, Ok(Some(directory::tenancy_of(t, caller))), true) == Some(
            "tenant `"@ + t.alias
                + "` has no admins, so nobody may change its policy — the host sets them in tenant.toml"@,
        ),
{
}

/// The verdict on rules that were sent, once they were taken over or were not.
pub fn replaced(written: Result<Vec<String>, String>) -> (r: Verdict)
    ensures
        match written {
            Ok(_) => r is Acknowledged,
            Err(e) => r matches Verdict::Deny { rationale } && rationale@ == e@,
        },
{
    match written {
        Ok(_) => Verdict::Acknowledged,
        Err(e) => Verdict::Deny { rationale: e },
    }
}

// ---------------------------------------------------------------------------
// what comes of a plea
// ---------------------------------------------------------------------------

pub const NOT_AN_ADMIN: &'static str = "not an admin of this controller — see `cm admin add`";

/// What to do about a plea.
pub enum Action {
    /// Send this back.
    Answer(Verdict),
    /// Show an admin what was asked for.
    Look(Look),
    /// Weigh this, and hand machines out, or only say what would be.
    Weigh { nivedana: Nivedana, rehearse: bool },
    /// Take these rules over, if the caller may.
    Accept(Upload),
    /// Verify this token, and remember the key it names.
    Enrol { token: String, note: Option<String> },
    /// A key was forgotten: write the book down, and acknowledge.
    Forgot(Enrolled),
    /// A reservation is over: charge for it, tell its machines, and acknowledge.
    Over(Closed),
}

/// Is this a refusal in these words?
pub open spec fn denies(action: Action, why: Seq<char>) -> bool {
    &&& action matches Action::Answer(Verdict::Deny { rationale })
    &&& rationale@ == why
}

/// Is this what comes of a plea?
pub open spec fn handles(
    before: Control,
    after: Control,
    who: Caller,
    key: Seq<char>,
    knock: Knock,
    plea: Plea,
    action: Action,
    now: u64,
) -> bool {
    &&& after.config == before.config
    &&& after.issuers == before.issuers
    &&& after.admins == before.admins
    &&& plea is Forget || after.enrolled == before.enrolled
    &&& plea is Release || after.fleet@ == before.fleet@
    &&& match plea {
        Plea::Ping => action matches Action::Answer(Verdict::Pong),
        Plea::Inspect { what } => if who@.admin is Some {
            action == Action::Look(what)
        } else {
            denies(action, NOT_AN_ADMIN@)
        },
        Plea::Nivedana(nivedana) => action == (Action::Weigh { nivedana, rehearse: false }),
        Plea::Rehearse(nivedana) => action == (Action::Weigh { nivedana, rehearse: true }),
        Plea::Upload(up) => action == Action::Accept(up),
        Plea::Enrol { note } => match knock.attestation {
            Some(token) => {
                &&& action matches Action::Enrol { token: t, note: n }
                &&& t@ == token@
                &&& n == note
            },
            None => denies(action, NEEDS_TOKEN@),
        },
        Plea::Forget { key: which } => {
            let target = match which {
                Some(other) => other@,
                None => key,
            };
            match kept(before.enrolled@, who@.alias, target) {
                Some(why) => denies(action, why) && after.enrolled == before.enrolled,
                None => {
                    &&& action matches Action::Forgot(gone)
                    &&& book::look_up(before.enrolled@, target) == Some(gone@)
                    &&& after.enrolled@ == book::forgotten(before.enrolled@, target)
                },
            }
        },
        Plea::Whoami => {
            &&& action matches Action::Answer(Verdict::Saw(seen))
            &&& text::texts(seen.lines@) == sight::whoami_lines(
                who@.alias,
                who.attested@,
                enrolled::of_alias(before.enrolled@, who@.alias),
                key,
            )
        },
        Plea::Release { reservation } => match action {
            Action::Over(closed) => fleet::released(
                before.fleet@,
                after.fleet@,
                Ok(closed),
                reservation@,
                key,
                now,
            ),
            Action::Answer(Verdict::Deny { rationale }) => fleet::released(
                before.fleet@,
                after.fleet@,
                Err(rationale),
                reservation@,
                key,
                now,
            ),
            _ => false,
        },
    }
}

impl Control {
    /// What to do about a plea of a caller that was let in, at a moment.
    pub fn handle_at(&mut self, who: &Caller, key: &str, knock: &Knock, plea: Plea, now: u64) -> (r:
        Action)
        requires
            old(self).fleet.wf(),
        ensures
            final(self).fleet.wf(),
            handles(*old(self), *final(self), *who, key@, *knock, plea, r, now),
    {
        match plea {
            Plea::Ping => Action::Answer(Verdict::Pong),
            Plea::Inspect { what } => {
                if who.admin.is_some() {
                    return Action::Look(what);
                }
                Action::Answer(Verdict::Deny { rationale: NOT_AN_ADMIN.to_owned() })
            },
            Plea::Nivedana(nivedana) => Action::Weigh { nivedana, rehearse: false },
            Plea::Rehearse(nivedana) => Action::Weigh { nivedana, rehearse: true },
            Plea::Upload(up) => Action::Accept(up),
            Plea::Enrol { note } => match &knock.attestation {
                Some(token) => Action::Enrol { token: token.clone(), note },
                None => Action::Answer(Verdict::Deny { rationale: NEEDS_TOKEN.to_owned() }),
            },
            Plea::Forget { key: which } => {
                let forgotten = match &which {
                    Some(other) => self.forget(who.alias.as_str(), key, Some(other.as_str())),
                    None => self.forget(who.alias.as_str(), key, None),
                };
                match forgotten {
                    Ok(gone) => Action::Forgot(gone),
                    Err(rationale) => Action::Answer(Verdict::Deny { rationale }),
                }
            },
            Plea::Whoami => Action::Answer(
                Verdict::Saw(Sight { lines: sight::whoami(who, &self.enrolled, key) }),
            ),
            Plea::Release { reservation } => {
                match self.fleet.release_at(reservation.as_str(), key, now) {
                    Ok(closed) => Action::Over(closed),
                    Err(rationale) => Action::Answer(Verdict::Deny { rationale }),
                }
            },
        }
    }

    /// What to do about a plea of a caller that was let in, now.
    pub fn handle(&mut self, who: &Caller, key: &str, knock: &Knock, plea: Plea) -> (r: Action)
        requires
            old(self).fleet.wf(),
        ensures
            final(self).fleet.wf(),
            exists|now: u64| #[trigger]
                handles(*old(self), *final(self), *who, key@, *knock, plea, r, now),
    {
        let now = fleet::now();
        self.handle_at(who, key, knock, plea, now)
    }
}

/// What is sent back, and whether the conversation is over. A controller that could not weigh
/// one plea cannot weigh the next one either, and a fault never becomes a verdict.
pub fn reply(decided: Result<Verdict, String>) -> (r: (Answer, bool))
    ensures
        match decided {
            Ok(verdict) => r == (Answer::Decided(verdict), false),
            Err(fault) => r.0 == (Answer::Fault { fault }) && r.1,
        },
{
    match decided {
        Ok(verdict) => (Answer::Decided(verdict), false),
        Err(fault) => (Answer::Fault { fault }, true),
    }
}

// ---------------------------------------------------------------------------
// laws of a conversation
// ---------------------------------------------------------------------------

/// Only an admin is shown the inside.
pub proof fn law_only_an_admin_looks_inside(
    before: Control,
    after: Control,
    who: Caller,
    key: Seq<char>,
    knock: Knock,
    plea: Plea,
    action: Action,
    now: u64,
)
    requires
        handles(before, after, who, key, knock, plea, action, now),
        action is Look,
    ensures
        who@.admin is Some,
{
}

/// A caller can make the controller forget keys of its own alias, and no others.
pub proof fn law_nobody_forgets_somebody_elses_key(
    before: Control,
    after: Control,
    who: Caller,
    key: Seq<char>,
    knock: Knock,
    plea: Plea,
    action: Action,
    now: u64,
    other: Seq<char>,
)
    requires
        handles(before, after, who, key, knock, plea, action, now),
        book::distinct(before.enrolled@),
        book::knows(before.enrolled@, other),
        book::look_up(before.enrolled@, other)->0.alias != who@.alias,
    ensures
        book::look_up(after.enrolled@, other) == book::look_up(before.enrolled@, other),
{
    if let Plea::Forget { key: which } = plea {
        let target = match which {
            Some(k) => k@,
            None => key,
        };
        if kept(before.enrolled@, who@.alias, target) is None {
            book::law_forgetting_takes_one_key_and_no_other(before.enrolled@, target, other);
        }
    }
}

/// No plea changes who is believed, who is an admin or what the controller is called.
pub proof fn law_no_plea_changes_who_is_trusted(
    before: Control,
    after: Control,
    who: Caller,
    key: Seq<char>,
    knock: Knock,
    plea: Plea,
    action: Action,
    now: u64,
)
    requires
        handles(before, after, who, key, knock, plea, action, now),
    ensures
        after.config == before.config,
        after.issuers@ == before.issuers@,
        after.admins@ == before.admins@,
{
}

/// A ticket that checks out and is for this controller lets its holder in under the name it
/// was made out to; one that does not check out, or is for another, lets nobody in, whatever
/// else comes with it.
pub proof fn law_a_ticket_decides_alone(
    name: Seq<char>,
    admins: Seq<(Seq<char>, AdminView)>,
    remembered: Seq<(Seq<char>, EnrolledView)>,
    issuers: IssuersView,
    knock: Knock,
    key: Seq<char>,
    sealed: Result<(), String>,
    now: u64,
)
    requires
        knock.ticket is Some,
    ensures
        ({
            let ticket = knock.ticket->0;
            let r = admitted(name, admins, remembered, issuers, knock, key, sealed, now);
            &&& r is Admitted <==> sealed is Ok && ticket.name@ == name
            &&& r is Refused <==> !(r is Admitted)
            &&& r matches AdmissionView::Admitted(who) ==> {
                &&& ticket.alias matches Some(alias) ==> who.alias == alias@ && !who.sibling
                    && who.admin is None
                &&& ticket.alias is None ==> who.sibling && who.admin == match book::look_up(
                    admins,
                    key,
                ) {
                    Some(found) => Some(found.name),
                    None => None,
                }
            }
        }),
{
}

/// Without a ticket, a key that is remembered lets its holder in as whoever it was remembered
/// for; any other needs a token, and a token counts only where somebody's word does.
pub proof fn law_a_remembered_key_needs_no_token(
    name: Seq<char>,
    admins: Seq<(Seq<char>, AdminView)>,
    remembered: Seq<(Seq<char>, EnrolledView)>,
    issuers: IssuersView,
    knock: Knock,
    key: Seq<char>,
    sealed: Result<(), String>,
    now: u64,
)
    requires
        knock.ticket is None,
    ensures
        ({
            let r = admitted(name, admins, remembered, issuers, knock, key, sealed, now);
            match book::look_up(remembered, key) {
                Some(known) => {
                    &&& r matches AdmissionView::Admitted(who)
                    &&& who.alias == known.alias
                    &&& who.attested.dom() == set!["issuer"@]
                    &&& who.attested["issuer"@] == known.issuer
                    &&& !who.sibling
                    &&& who.admin is None
                },
                None => match knock.attestation {
                    None => r is Refused,
                    Some(token) => {
                        &&& issuers.believed.len() == 0 ==> r is Refused
                        &&& issuers.believed.len() > 0 ==> match attest::verified(
                            issuers,
                            token@,
                            key,
                            now,
                        ) {
                            StepView::Refused(why) => r == AdmissionView::Refused(why),
                            StepView::Fetch(p) => r == AdmissionView::Fetch(p),
                            StepView::Settled(v) => {
                                &&& r matches AdmissionView::Admitted(who)
                                &&& who.alias == v.alias
                                &&& who.attested == v.facts
                                &&& !who.sibling
                                &&& who.admin is None
                            },
                        }
                    },
                },
            }
        }),
{
    if let Some(known) = book::look_up(remembered, key) {
        assert(Map::<Seq<char>, Seq<char>>::empty().insert("issuer"@, known.issuer).dom()
            =~= set!["issuer"@]);
    }
}

/// A caller that waited for an issuer's keys is let in exactly where those keys, or the ones at
/// hand where none came, prove its token.
pub proof fn law_a_caller_that_waited_is_proven_all_the_same(
    before: IssuersView,
    after: IssuersView,
    p: PresentedView,
    fetched: Result<KeysView, Seq<char>>,
    result: Result<CallerView, Seq<char>>,
)
    requires
        received(before, after, p, fetched, result),
    ensures
        result matches Ok(who) ==> {
            &&& after.cached.dom().contains(p.issuer.name)
            &&& attest::vouched(p, after.cached[p.issuer.name].by_kid) matches Ok(v)
            &&& who.alias == v.alias
            &&& who.attested == v.facts
            &&& !who.sibling
            &&& who.admin is None
        },
        fetched matches Ok(keys) ==> (result is Ok <==> attest::vouched(p, keys.by_kid) is Ok),
        fetched is Err && before.cached.dom().contains(p.issuer.name) ==> (result is Ok
            <==> attest::vouched(p, before.cached[p.issuer.name].by_kid) is Ok),
        fetched is Err ==> after.cached == before.cached,
{
}

/// A key is remembered exactly where the issuer's tokens may leave one behind, as the key that
/// was dialled from and for whom the token named. Nobody else's key is touched.
pub proof fn law_a_token_that_may_leaves_a_key_behind(
    before: Seq<(Seq<char>, EnrolledView)>,
    after: Seq<(Seq<char>, EnrolledView)>,
    v: VouchedView,
    key: Seq<char>,
    note: Option<Seq<char>>,
    at: u64,
    result: Result<(), Seq<char>>,
    other: Seq<char>,
)
    requires
        enrols(before, after, v, key, note, at, result),
        other != key,
    ensures
        result is Ok <==> v.may_enrol,
        result is Err ==> after == before,
        result is Ok ==> {
            &&& book::look_up(after, key) matches Some(e)
            &&& e.key == key
            &&& e.alias == v.alias
            &&& e.at == at
            &&& e.note == note
            &&& v.facts.dom().contains("issuer"@) ==> e.issuer == v.facts["issuer"@]
        },
        book::look_up(after, other) == book::look_up(before, other),
{
    book::law_remembering_changes_one_entry_and_no_other(
        before,
        key,
        entry_of(v, key, note, at),
        other,
    );
}

/// A key is forgotten exactly where it is remembered for whoever asks: the one they name, or
/// the one they ask from. It is known no more, and every other key is.
pub proof fn law_a_key_of_ones_own_is_forgotten(
    before: Seq<(Seq<char>, EnrolledView)>,
    after: Seq<(Seq<char>, EnrolledView)>,
    alias: Seq<char>,
    mine: Seq<char>,
    which: Option<Seq<char>>,
    result: Result<EnrolledView, Seq<char>>,
    target: Seq<char>,
    other: Seq<char>,
)
    requires
        forgets(before, after, alias, mine, which, result),
        book::distinct(before),
        which matches Some(key) ==> target == key,
        which is None ==> target == mine,
        other != target,
    ensures
        result is Ok <==> (book::look_up(before, target) matches Some(e) && e.alias == alias),
        result is Ok ==> book::look_up(after, target) is None,
        result is Err ==> after == before,
        book::look_up(after, other) == book::look_up(before, other),
        result matches Ok(gone) ==> book::look_up(before, target) == Some(gone),
{
    book::law_forgetting_takes_one_key_and_no_other(before, target, other);
}

/// The rules of a tenant are replaced exactly by those of its callers that may write.
pub proof fn law_only_whoever_may_write_replaces_the_rules(
    alias: Seq<char>,
    found: Result<Option<TenancyView>, Seq<char>>,
    nobody: bool,
)
    ensures
        may_not_write(alias, found, nobody) is None <==> (found matches Ok(Some(who))
            && who.may_write),
{
}

/// A ping is answered, a plea for machines is weighed, a rehearsal holds nothing, rules are
/// taken over, and a key is remembered only on the word of a token.
pub proof fn law_every_plea_is_taken_for_what_it_is(
    before: Control,
    after: Control,
    who: Caller,
    key: Seq<char>,
    knock: Knock,
    plea: Plea,
    action: Action,
    now: u64,
)
    requires
        handles(before, after, who, key, knock, plea, action, now),
    ensures
        plea is Ping ==> (action matches Action::Answer(Verdict::Pong)),
        plea matches Plea::Nivedana(n) ==> action == (Action::Weigh { nivedana: n, rehearse: false }),
        plea matches Plea::Rehearse(n) ==> action == (Action::Weigh { nivedana: n, rehearse: true }),
        plea matches Plea::Upload(up) ==> action == Action::Accept(up),
        plea matches Plea::Inspect { what } ==> (action == Action::Look(what) <==> who@.admin
            is Some),
        plea is Enrol ==> (action is Enrol <==> knock.attestation is Some),
        plea matches Plea::Release { reservation } ==> (action is Over
            <==> before.fleet@.reservations.dom().contains(reservation@)
            && before.fleet@.reservations[reservation@].caller == key),
        !(plea is Release) ==> after.fleet@ == before.fleet@,
        !(plea is Forget) ==> after.enrolled@ == before.enrolled@,
{
}

/// Whoever asks who they are is shown what is known of them: themselves, what was vouched for,
/// and every key that is remembered for them and nobody else's.
pub proof fn law_whoever_asks_is_told_who_they_are(
    before: Control,
    after: Control,
    who: Caller,
    key: Seq<char>,
    knock: Knock,
    action: Action,
    now: u64,
)
    requires
        handles(before, after, who, key, knock, Plea::Whoami, action, now),
    ensures
        action matches Action::Answer(Verdict::Saw(seen)) && text::texts(seen.lines@)
            == sight::whoami_lines(
            who@.alias,
            who.attested@,
            enrolled::of_alias(before.enrolled@, who@.alias),
            key,
        ),
{
}

/// Whoever is refused is told why: that they are no admin, that a key is remembered only on the
/// word of a token, or that what they would forget is not theirs or not known.
pub proof fn law_a_refused_plea_says_why(
    before: Control,
    after: Control,
    who: Caller,
    key: Seq<char>,
    knock: Knock,
    plea: Plea,
    action: Action,
    now: u64,
)
    requires
        handles(before, after, who, key, knock, plea, action, now),
    ensures
        plea is Inspect && who@.admin is None ==> (action matches Action::Answer(
            Verdict::Deny { rationale },
        ) && rationale@ == NOT_AN_ADMIN@),
        plea is Enrol && knock.attestation is None ==> (action matches Action::Answer(
            Verdict::Deny { rationale },
        ) && rationale@ == NEEDS_TOKEN@),
        plea matches Plea::Forget { key: Some(other) } ==> {
            &&& book::look_up(before.enrolled@, other@) is None ==> (action matches Action::Answer(
                Verdict::Deny { rationale },
            ) && rationale@ == "this controller does not remember "@ + other@)
            &&& book::look_up(before.enrolled@, other@) matches Some(e) ==> (e.alias != who@.alias
                ==> (action matches Action::Answer(Verdict::Deny { rationale }) && rationale@
                == NOT_YOURS@))
        },
{
}

/// Whoever may not replace the rules is told why, and what to do about it differs.
pub proof fn law_whoever_may_not_write_is_told_why(
    alias: Seq<char>,
    who: TenancyView,
    e: Seq<char>,
    nobody: bool,
)
    requires
        !who.may_write,
    ensures
        may_not_write(alias, Ok(None), nobody) == Some(
            alias + " is not a tenant of this controller"@,
        ),
        may_not_write(alias, Err(e), nobody) == Some("could not look you up: "@ + e),
        may_not_write(alias, Ok(Some(who)), true) == Some(
            "tenant `"@ + who.tenant
                + "` has no admins, so nobody may change its policy — the host sets them in tenant.toml"@,
        ),
        may_not_write(alias, Ok(Some(who)), false) == Some(
            alias + " may run tests for `"@ + who.tenant
                + "` but not change its rules — whoever runs this controller decides that, not the rules themselves"@,
        ),
{
}

} // verus!
