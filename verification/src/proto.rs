//! What testers, controllers and workers say to each other.
//!
//! The vocabulary is deliberate: the roles are asymmetric. A *nivedana* is a plea that may
//! be granted, countered or refused. An *aadesh* is an order with limits attached. An
//! *upadesh* is the work itself.
//!
//! ```text
//!   worker  --register-->  controller      the connection is the registration
//!   tester  --nivedana-->  controller  --aadesh-->  worker
//!   tester  --upadesh--->  worker           direct; the controller is not a proxy
//! ```
//!
//! Workers never talk to each other: allocation, availability and timeouts all live at
//! the controller, which is the only party that can see the whole fleet.

use vstd::prelude::*;

use crate::table::Table;

verus! {

// ---------------------------------------------------------------------------
// tester -> controller
// ---------------------------------------------------------------------------

/// What opens a conversation: proof of who is asking, of one kind or the other.
#[derive(Debug, Clone)]
pub struct Knock {
    pub ticket: Option<Ticket>,
    pub attestation: Option<String>,
}

/// What a sealed ticket says, once its seal has been checked.
#[derive(Debug, Clone)]
pub struct Ticket {
    /// The device it admits to.
    pub name: String,
    /// The key it admits.
    pub caller: String,
    /// Whom the issuer knows that key as. A device of the issuer's own has none.
    pub alias: Option<String>,
    /// For how many seconds it admits.
    pub seconds: u64,
}

#[derive(Debug, Clone)]
pub enum Plea {
    /// Ask for machines.
    Nivedana(Nivedana),
    /// Ask what *would* happen, and take nothing.
    Rehearse(Nivedana),
    /// Ask for nothing at all: a positive test of the whole chain.
    Ping,
    /// Done with them.
    Release { reservation: String },
    /// Look inside. For admins only.
    Inspect { what: Look },
    /// Replace what a tenant has written down.
    Upload(Upload),
    /// Remember the key this connection came from.
    Enrol { note: Option<String> },
    /// Forget a key: this one, or another of the same identity.
    Forget { key: Option<String> },
    /// Who does the controller think this is?
    Whoami,
}

/// The plea.
#[derive(Debug, Clone)]
pub struct Nivedana {
    /// How many machines they think they need.
    pub count: Option<u32>,
    /// What the work needs a machine to be able to do. Matched against what each worker
    /// declared; a worker missing any of these is not a candidate.
    pub capabilities: Vec<String>,
    /// Everything else, in the caller's own keys. Nothing here reads any of it.
    pub said: Table<String>,
}

impl Default for Nivedana {
    fn default() -> (r: Self)
        ensures
            r.count is None,
            r.capabilities@ == Seq::<String>::empty(),
            r.said@ == Seq::<(Seq<char>, Seq<char>)>::empty(),
    {
        Nivedana { count: None, capabilities: Vec::new(), said: Table::new() }
    }
}

/// What an admin may look at.
#[derive(Debug, Clone, Copy, PartialEq, Eq, Structural)]
pub enum Look {
    Fleet,
    Reservations,
    Spend,
}

/// What an admin sees: lines, ready to print.
#[derive(Debug, Clone)]
pub struct Sight {
    pub lines: Vec<String>,
}

/// Everything a tenant has written down, to stand in place of what is there.
#[derive(Debug, Clone)]
pub struct Upload {
    pub files: Vec<PolicyFile>,
}

#[derive(Debug, Clone)]
pub struct PolicyFile {
    /// Relative to the tenant's folder.
    pub path: String,
    pub text: String,
}

/// What a file is called, and what it says.
#[verifier::ext_equal]
pub struct FileView {
    pub path: Seq<char>,
    pub text: Seq<char>,
}

impl View for PolicyFile {
    type V = FileView;

    open spec fn view(&self) -> FileView {
        FileView { path: self.path@, text: self.text@ }
    }
}

/// What a list of files is.
pub open spec fn files(list: Seq<PolicyFile>) -> Seq<FileView> {
    list.map_values(|f: PolicyFile| f@)
}

impl PolicyFile {
    pub fn copied(&self) -> (r: Self)
        ensures
            r@ == self@,
    {
        PolicyFile { path: self.path.clone(), text: self.text.clone() }
    }
}

/// What comes back: a decision, or the absence of one.
///
/// A verdict is a judgement that somebody's policy produced. A fault is not one: dressed
/// as a verdict it would make a broken controller look like a strict one.
#[derive(Debug, Clone)]
pub enum Answer {
    Decided(Verdict),
    Fault { fault: String },
}

/// The controller's answer.
#[derive(Debug, Clone)]
pub enum Verdict {
    /// Granted: the reservation, and how to reach each machine.
    Grant {
        reservation: String,
        workers: Vec<WorkerHandle>,
        /// Seconds until the reservation expires on its own.
        expires_in: u64,
        rationale: Option<String>,
    },
    /// A different shape fits: fewer machines than asked for, and why.
    Counter { count: u32, rationale: String },
    /// Refused, with a reason the caller can act on.
    Deny { rationale: String },
    /// Acknowledged: the answer to a release.
    Acknowledged,
    /// What a rehearsal would have got, as things stand right now.
    Would { count: u32, rationale: String },
    /// The answer to a ping: we are here, and we accepted your ticket. Deliberately empty.
    Pong,
    /// What an admin looked at.
    Saw(Sight),
}

/// Where a granted machine is, and the ticket that admits the caller to it.
#[derive(Debug, Clone)]
pub struct WorkerHandle {
    pub name: String,
    pub key: String,
    pub hints: Vec<String>,
    pub ticket: Ticket,
}

// ---------------------------------------------------------------------------
// worker <-> controller
// ---------------------------------------------------------------------------

/// A worker arriving. The connection *is* the registration: while it is open the worker
/// is available, and when it drops the controller stops offering it.
#[derive(Debug, Clone)]
pub struct Register {
    /// What the worker calls itself.
    pub name: String,
    /// Credits per minute while held.
    pub rate: u32,
    /// What it can do. Matched against what a plea asks for.
    pub capabilities: Vec<String>,
    /// Where it listens, so a caller can be sent straight to it.
    pub hints: Vec<String>,
}

/// Sent down the registration connection when the worker is assigned.
#[derive(Debug, Clone)]
pub enum Aadesh {
    /// You are assigned to `caller` for this reservation, within these limits.
    Assigned { reservation: String, caller: String, limits: Limits },
    /// That reservation is over: released, or expired.
    Freed { reservation: String },
}

#[derive(Debug, Clone, Copy)]
pub struct Limits {
    pub max_seconds: u64,
}

impl Default for Limits {
    fn default() -> (r: Self)
        ensures
            r.max_seconds == 600,
    {
        Limits { max_seconds: 600 }
    }
}

// ---------------------------------------------------------------------------
// tester -> worker
// ---------------------------------------------------------------------------

/// The work itself, sent straight to the worker.
#[derive(Debug, Clone)]
pub enum Upadesh {
    Run {
        reservation: String,
        /// Run by a shell, so a caller can send what they would have typed.
        command: String,
        /// Get the code first, and run in what that produces.
        workspace: Option<Workspace>,
        /// Where to run it, when the machine already has the code.
        cwd: Option<String>,
        /// Extra environment for the command.
        env: Vec<(String, String)>,
        /// Files to send back when it finishes, relative to `cwd`.
        collect: Vec<String>,
        /// Which shard of the plan this machine takes.
        index: u32,
        total: u32,
    },
}

/// What comes back up the same stream, in order: any number of `Log`s while the command
/// runs, then exactly one `Done` or `No`.
#[derive(Debug, Clone)]
pub enum Outcome {
    Log { index: u32, line: String, stderr: bool },
    Done {
        worker: String,
        index: u32,
        /// The command's exit status. `None` means it was killed for exceeding its limit.
        code: Option<i32>,
        artifacts: Vec<Artifact>,
    },
    No { reason: String },
}

/// The code a machine needs before it can run anything. Fetched fresh per reservation.
#[derive(Debug, Clone)]
pub struct Workspace {
    /// Anything `git fetch` understands.
    pub repo: String,
    /// A commit, branch or tag.
    pub git_ref: String,
    /// Subdirectory of the checkout to work in.
    pub dir: Option<String>,
    /// Run once after checkout, before the command.
    pub setup: Option<String>,
}

/// A file coming back from a worker, base64 so it survives a line of text.
#[derive(Debug, Clone)]
pub struct Artifact {
    /// The path asked for, as asked for, so the caller can match it up.
    pub path: String,
    pub base64: String,
}

} // verus!
