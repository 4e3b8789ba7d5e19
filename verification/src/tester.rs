//! The tester's side: finding a controller, reading its answer, and splitting the work over
//! the machines it granted.

use vstd::prelude::*;
use vstd::string::*;

use crate::fleet;
use crate::path;
use crate::proto::{Answer, Artifact, Outcome, Upadesh, Verdict, WorkerHandle, Workspace};
use crate::text;

verus! {

// ---------------------------------------------------------------------------
// the work
// ---------------------------------------------------------------------------

/// One command, to be run once per granted machine with its shard number filled in.
#[derive(Debug, Clone)]
pub struct Job {
    /// May contain `{shard}` (from one), `{index}` (from nought) and `{shards}`.
    pub command: String,
    /// Code to fetch first.
    pub workspace: Option<Workspace>,
    pub cwd: Option<String>,
    pub env: Vec<(String, String)>,
    pub collect: Vec<String>,
}

/// Named texts, as pairs.
pub open spec fn pairs(list: Seq<(String, String)>) -> Seq<(Seq<char>, Seq<char>)> {
    list.map_values(|p: (String, String)| (p.0@, p.1@))
}

/// A text with one machine's place in the plan filled in. A runner counts shards from one; a
/// directory listing does not.
pub open spec fn shaped_of(s: Seq<char>, index: u32, total: u32) -> Seq<char> {
    text::replaced(
        text::replaced(
            text::replaced(s, "{shard}"@, text::decimal_of((index + 1) as nat)),
            "{index}"@,
            text::decimal_of(index as nat),
        ),
        "{shards}"@,
        text::decimal_of(total as nat),
    )
}

/// Is this the work of one machine?
pub open spec fn runs(
    up: Upadesh,
    job: Job,
    id: Seq<char>,
    place: u32,
    of: u32,
) -> bool {
    match up {
        Upadesh::Run { reservation, command, workspace, cwd, env, collect, index, total } => {
            &&& reservation@ == id
            &&& command@ == shaped_of(job.command@, place, of)
            &&& workspace_view(workspace) == workspace_view(job.workspace)
            &&& fleet::held_text(cwd) == fleet::held_text(job.cwd)
            &&& pairs(env@) == pairs(job.env@).map_values(
                |p: (Seq<char>, Seq<char>)| (p.0, shaped_of(p.1, place, of)),
            )
            &&& text::texts(collect@) == text::texts(job.collect@).map_values(
                |p: Seq<char>| shaped_of(p, place, of),
            )
            &&& index == place
            &&& total == of
        },
    }
}

#[verifier::ext_equal]
pub struct WorkspaceView {
    pub repo: Seq<char>,
    pub git_ref: Seq<char>,
    pub dir: Option<Seq<char>>,
    pub setup: Option<Seq<char>>,
}

pub open spec fn workspace_view(w: Option<Workspace>) -> Option<WorkspaceView> {
    match w {
        Some(w) => Some(
            WorkspaceView {
                repo: w.repo@,
                git_ref: w.git_ref@,
                dir: fleet::held_text(w.dir),
                setup: fleet::held_text(w.setup),
            },
        ),
        None => None,
    }
}

pub(crate) fn copied(s: &Option<String>) -> (r: Option<String>)
    ensures
        fleet::held_text(r) == fleet::held_text(*s),
{
    match s {
        Some(s) => Some(s.clone()),
        None => None,
    }
}

fn copied_workspace(w: &Option<Workspace>) -> (r: Option<Workspace>)
    ensures
        workspace_view(r) == workspace_view(*w),
{
    match w {
        Some(w) => Some(
            Workspace {
                repo: w.repo.clone(),
                git_ref: w.git_ref.clone(),
                dir: copied(&w.dir),
                setup: copied(&w.setup),
            },
        ),
        None => None,
    }
}

impl Job {
    /// Fills in one machine's place in the plan.
    pub fn shaped(&self, s: &str, index: u32, total: u32) -> (r: String)
        ensures
            r@ == shaped_of(s@, index, total),
    {
        proof {
            reveal_strlit("{shard}");
            reveal_strlit("{index}");
            reveal_strlit("{shards}");
        }
        let shard = text::decimal(index as u64 + 1);
        let at = text::decimal(index as u64);
        let of = text::decimal(total as u64);
        let one = text::replace(s, "{shard}", shard.as_str());
        let two = text::replace(one.as_str(), "{index}", at.as_str());
        text::replace(two.as_str(), "{shards}", of.as_str())
    }

    /// What one machine is sent.
    pub fn for_machine(&self, reservation: &str, index: u32, total: u32) -> (r: Upadesh)
        ensures
            runs(r, *self, reservation@, index, total),
    {
        let mut env: Vec<(String, String)> = Vec::new();
        let ghost named = pairs(self.env@).map_values(
            |p: (Seq<char>, Seq<char>)| (p.0, shaped_of(p.1, index, total)),
        );
        for i in 0..self.env.len()
            invariant
                env@.len() == i,
                forall|k: int|
                    0 <= k < i ==> {
                        &&& (#[trigger] env@[k]).0@ == self.env@[k].0@
                        &&& env@[k].1@ == shaped_of(self.env@[k].1@, index, total)
                    },
        {
            env.push(
                (self.env[i].0.clone(), self.shaped(self.env[i].1.as_str(), index, total)),
            );
        }
        assert(pairs(env@) =~= named);
        let mut collect: Vec<String> = Vec::new();
        for i in 0..self.collect.len()
            invariant
                collect@.len() == i,
                forall|k: int|
                    0 <= k < i ==> (#[trigger] collect@[k])@ == shaped_of(
                        self.collect@[k]@,
                        index,
                        total,
                    ),
        {
            collect.push(self.shaped(self.collect[i].as_str(), index, total));
        }
        assert(text::texts(collect@) =~= text::texts(self.collect@).map_values(
            |p: Seq<char>| shaped_of(p, index, total),
        ));
        Upadesh::Run {
            reservation: reservation.to_owned(),
            command: self.shaped(self.command.as_str(), index, total),
            workspace: copied_workspace(&self.workspace),
            cwd: copied(&self.cwd),
            env,
            collect,
            index,
            total,
        }
    }
}

/// What one machine did.
#[derive(Debug, Clone)]
pub struct Shard {
    pub worker: String,
    pub index: u32,
    pub code: Option<i32>,
    pub artifacts: Vec<Artifact>,
}

/// What one message of a machine comes to.
pub enum Heard {
    /// Print this line, and listen on.
    Say { line: String, stderr: bool },
    Done(Shard),
    Failed(String),
}

/// What a message of a machine, or its silence, comes to.
pub open spec fn hears(
    r: Heard,
    outcome: Option<Outcome>,
    name: Seq<char>,
) -> bool {
    match outcome {
        None => r matches Heard::Failed(why) && why@ == name + " stopped talking mid-run"@,
        Some(Outcome::Log { index, line, stderr }) => {
            &&& r matches Heard::Say { line: said, stderr: e }
            &&& said@ == "["@ + name + "] "@ + line@
            &&& e == stderr
        },
        Some(Outcome::Done { worker, index, code, artifacts }) => r == Heard::Done(
            (Shard { worker, index, code, artifacts }),
        ),
        Some(Outcome::No { reason }) => r matches Heard::Failed(why) && why@ == name
            + " refused: "@ + reason@,
    }
}

/// What a message of a machine means, or its silence.
pub fn hear(outcome: Option<Outcome>, name: &str) -> (r: Heard)
    ensures
        hears(r, outcome, name@),
{
    match outcome {
        None => {
            let mut why = name.to_owned();
            why.append(" stopped talking mid-run");
            Heard::Failed(why)
        },
        Some(Outcome::Log { index: _, line, stderr }) => {
            let mut said = String::from_str("[");
            said.append(name);
            said.append("] ");
            said.append(line.as_str());
            Heard::Say { line: said, stderr }
        },
        Some(Outcome::Done { worker, index, code, artifacts }) => Heard::Done(
            Shard { worker, index, code, artifacts },
        ),
        Some(Outcome::No { reason }) => {
            let mut why = name.to_owned();
            why.append(" refused: ");
            why.append(reason.as_str());
            Heard::Failed(why)
        },
    }
}

/// Did this machine do its part? One that was killed did not, and neither did one that was
/// never heard from again.
pub open spec fn did(result: Result<Shard, String>) -> bool {
    result matches Ok(shard) && shard.code == Some(0i32)
}

/// Did every machine of a run do its part?
pub open spec fn went_well(results: Seq<Result<Shard, String>>) -> bool {
    forall|i: int| 0 <= i < results.len() ==> did(#[trigger] results[i])
}

/// Did a run succeed? A distributed run that swallows a failing shard is worse than no run at
/// all.
pub fn exit_with(results: &[Result<Shard, String>]) -> (r: bool)
    ensures
        r == went_well(results@),
{
    for i in 0..results.len()
        invariant
            forall|k: int| 0 <= k < i ==> did(#[trigger] results@[k]),
    {
        let fine = match &results[i] {
            Ok(shard) => match shard.code {
                Some(code) => code == 0,
                None => false,
            },
            Err(_) => false,
        };
        if !fine {
            assert(!did(results@[i as int]));
            return false;
        }
    }
    true
}

/// What is said of one machine's part.
pub open spec fn report_of(shard: Shard) -> Seq<char> {
    "  "@ + shard.worker@ + " finished shard "@ + text::decimal_of((shard.index + 1) as nat)
        + " with "@ + crate::described(shard.code)
}

pub fn report(shard: &Shard) -> (r: String)
    ensures
        r@ == report_of(*shard),
{
    let mut r = String::from_str("  ");
    r.append(shard.worker.as_str());
    r.append(" finished shard ");
    r.append(text::decimal(shard.index as u64 + 1).as_str());
    r.append(" with ");
    r.append(crate::describe(shard.code).as_str());
    r
}

// ---------------------------------------------------------------------------
// what comes back
// ---------------------------------------------------------------------------

/// A file to be kept: where, under which folder, and what is in it.
pub struct Kept {
    pub folder: String,
    pub path: String,
    pub bytes: Vec<u8>,
}

/// The folder of one shard. One each, or two shards that produce the same file name would
/// overwrite each other.
pub open spec fn shard_dir(dir: Seq<char>, index: u32) -> Seq<char> {
    path::join_of(dir, "shard-"@ + text::decimal_of((index + 1) as nat))
}

/// What comes of keeping a file that a machine sent.
pub open spec fn keeps(
    r: Result<Kept, String>,
    dir: Seq<char>,
    index: u32,
    artifact: Artifact,
) -> bool {
    match path::file_name_of(artifact.path@) {
        None => r matches Err(why) && why@ == text::quoted_of(artifact.path@)
            + " has no filename"@,
        Some(name) => match crate::unbase64_of(artifact.base64@) {
            Err(e) => r matches Err(why) && why@ == e,
            Ok(bytes) => {
                &&& r matches Ok(kept)
                &&& kept.folder@ == shard_dir(dir, index)
                &&& kept.path@ == path::join_of(shard_dir(dir, index), name)
                &&& kept.bytes@ == bytes
            },
        },
    }
}

/// What is kept of a file that a machine sent. The path came from another machine: its last
/// name is taken and nothing else.
pub fn keep(dir: &str, index: u32, artifact: &Artifact) -> (r: Result<Kept, String>)
    requires
        vstd::utf8::encode_utf8(artifact.base64@).len() <= usize::MAX / 8,
    ensures
        keeps(r, dir@, index, *artifact),
{
    let name = match path::file_name(artifact.path.as_str()) {
        Some(name) => name,
        None => {
            let mut why = text::quoted(artifact.path.as_str());
            why.append(" has no filename");
            return Err(why);
        },
    };
    let bytes = match crate::b64_decode(artifact.base64.as_str()) {
        Ok(bytes) => bytes,
        Err(why) => return Err(why),
    };
    let mut own = String::from_str("shard-");
    own.append(text::decimal(index as u64 + 1).as_str());
    let folder = path::join(dir, own.as_str());
    let path = path::join(folder.as_str(), name.as_str());
    Ok(Kept { folder, path, bytes })
}

/// A file that a machine sends, as a line of text can hold it.
pub fn artifact(name: &str, bytes: &[u8]) -> (r: Artifact)
    requires
        bytes@.len() <= usize::MAX / 512,
    ensures
        r.path@ == name@,
        r.base64@ == crate::base64_of(bytes@),
        crate::stands_for(r.base64@, bytes@),
{
    Artifact { path: name.to_owned(), base64: crate::b64_encode(bytes) }
}

/// What is kept of a file is what the machine put into it.
pub proof fn law_a_file_comes_back_as_it_was(sent: Artifact, bytes: Seq<u8>, kept: Seq<u8>)
    requires
        crate::stands_for(sent.base64@, bytes),
        crate::unbase64_of(sent.base64@) == Ok::<Seq<u8>, Seq<char>>(kept),
    ensures
        kept == bytes,
{
}

pub proof fn lemma_shard_name(index: u32)
    ensures
        ({
            let own = "shard-"@ + text::decimal_of((index + 1) as nat);
            &&& own.len() > 0
            &&& !text::begins(own, "/"@)
            &&& !text::ends(own, "/"@)
            &&& text::lacks(own, '/')
        }),
{
    let digits = text::decimal_of((index + 1) as nat);
    text::lemma_decimal_reads_back((index + 1) as nat);
    reveal_strlit("shard-");
    reveal_strlit("/");
    let own = "shard-"@ + digits;
    assert forall|i: int| 0 <= i < own.len() implies #[trigger] own[i] != '/' by {
        if i >= 6 {
            assert(own[i] == digits[i - 6]);
            assert(text::is_digit(digits[i - 6]));
        }
    }
    if text::begins(own, "/"@) {
        assert(own[0] == own.take(1)[0]);
    }
    if text::ends(own, "/"@) {
        assert(own[own.len() - 1] == own.skip(own.len() - 1)[0]);
    }
}

/// A machine cannot choose where files land: whatever path it sent, what is kept of it stands
/// directly in the folder of its shard, and that in the folder the caller named.
pub proof fn law_a_worker_cannot_choose_where_our_files_land(
    dir: Seq<char>,
    index: u32,
    sent: Seq<char>,
)
    requires
        path::file_name_of(sent) is Some,
    ensures
        ({
            let name = path::file_name_of(sent)->0;
            &&& path::join_of(shard_dir(dir, index), name) == path::inside(dir) + "shard-"@
                + text::decimal_of((index + 1) as nat) + "/"@ + name
            &&& text::lacks(name, '/')
            &&& name != ".."@
        }),
{
    lemma_shard_name(index);
    let own = "shard-"@ + text::decimal_of((index + 1) as nat);
    let folder = shard_dir(dir, index);
    assert(folder == path::inside(dir) + own);
    reveal_strlit("/");
    if text::ends(folder, "/"@) {
        assert(folder.skip(folder.len() - 1)[0] == own[own.len() - 1]);
        assert(own.skip(own.len() - 1) =~= "/"@);
    }
    path::law_a_file_name_stays_in_its_folder(sent, folder);
    let name = path::file_name_of(sent)->0;
    assert(path::join_of(folder, name) =~= path::inside(dir) + "shard-"@ + text::decimal_of(
        (index + 1) as nat,
    ) + "/"@ + name);
}

/// Two shards are kept apart: what one of them sent is never kept where another's is.
pub proof fn law_shards_are_kept_apart(
    dir: Seq<char>,
    one: u32,
    other: u32,
    sent: Seq<char>,
    sent_too: Seq<char>,
)
    requires
        one != other,
        path::file_name_of(sent) is Some,
        path::file_name_of(sent_too) is Some,
    ensures
        path::join_of(shard_dir(dir, one), path::file_name_of(sent)->0) != path::join_of(
            shard_dir(dir, other),
            path::file_name_of(sent_too)->0,
        ),
{
    law_a_worker_cannot_choose_where_our_files_land(dir, one, sent);
    law_a_worker_cannot_choose_where_our_files_land(dir, other, sent_too);
    let a = text::decimal_of((one + 1) as nat);
    let b = text::decimal_of((other + 1) as nat);
    text::lemma_decimal_reads_back((one + 1) as nat);
    text::lemma_decimal_reads_back((other + 1) as nat);
    let head = path::inside(dir) + "shard-"@;
    let x = head + a + "/"@ + path::file_name_of(sent)->0;
    let y = head + b + "/"@ + path::file_name_of(sent_too)->0;
    if x == y {
        reveal_strlit("/");
        let n = head.len() as int;
        if a.len() < b.len() {
            assert(x[n + a.len()] == '/');
            assert(y[n + a.len()] == b[a.len() as int]);
            assert(text::is_digit(b[a.len() as int]));
        } else if b.len() < a.len() {
            assert(y[n + b.len()] == '/');
            assert(x[n + b.len()] == a[b.len() as int]);
            assert(text::is_digit(a[b.len() as int]));
        } else {
            assert(x.subrange(n, n + a.len()) =~= a);
            assert(y.subrange(n, n + b.len()) =~= b);
        }
    }
}

// ---------------------------------------------------------------------------
// finding a controller
// ---------------------------------------------------------------------------

/// Does a text look like the name of a host? Deliberately loose: a wrong guess fails at once
/// and legibly.
pub open spec fn is_host(target: Seq<char>) -> bool {
    text::begins(target, "https://"@) || text::begins(target, "http://"@) || text::holds(
        target,
        "."@,
    )
}

pub fn looks_like_a_host(target: &str) -> (r: bool)
    ensures
        r == is_host(target@),
{
    text::starts_with(target, "https://") || text::starts_with(target, "http://")
        || text::contains(target, ".")
}

/// Where a host publishes which controller it runs. A full address may already be that of the
/// document, or just the host's.
pub open spec fn document_at(target: Seq<char>) -> Seq<char> {
    if text::holds(target, "://"@) {
        if text::holds(target, crate::WELL_KNOWN@) {
            target
        } else {
            text::without_end(target, '/') + crate::WELL_KNOWN@
        }
    } else {
        "https://"@ + target + crate::WELL_KNOWN@
    }
}

pub fn document(target: &str) -> (r: String)
    ensures
        r@ == document_at(target@),
{
    if text::contains(target, "://") {
        if text::contains(target, crate::WELL_KNOWN) {
            return target.to_owned();
        }
        let mut r = text::strip_end(target, '/').to_owned();
        r.append(crate::WELL_KNOWN);
        return r;
    }
    let mut r = String::from_str("https://");
    r.append(target);
    r.append(crate::WELL_KNOWN);
    r
}

/// What to warn of before asking there: over plain http nothing vouches for the answer.
pub fn warning(url: &str) -> (r: Option<String>)
    ensures
        match r {
            Some(s) => text::begins(url@, "http://"@) && s@ == "warning: "@ + url@
                + " is not https, so nothing vouches for this answer"@,
            None => !text::begins(url@, "http://"@),
        },
{
    if !text::starts_with(url, "http://") {
        return None;
    }
    let mut r = String::from_str("warning: ");
    r.append(url);
    r.append(" is not https, so nothing vouches for this answer");
    Some(r)
}

/// How a controller was named.
pub enum Way {
    /// By a name that our own organisation resolves, with a ticket.
    Enrolled { name: String, org: String },
    /// By its key, dialled directly with an attestation.
    Key,
    /// By a host that publishes its key.
    Host,
}

pub open spec fn nameless(target: Seq<char>) -> Seq<char> {
    text::quoted_of(target)
        + " is none of the three ways to name a controller: `name@org` from an enrolled device, a host that publishes /.well-known/cm-controller, or the id52 itself."@
}

/// Is this the way that a target names a controller?
pub open spec fn names(
    r: Result<Way, String>,
    target: Seq<char>,
    decodes: bool,
) -> bool {
    let at = text::place_of(target, '@');
    if at < target.len() {
        &&& r matches Ok(Way::Enrolled { name, org })
        &&& name@ == target.take(at)
        &&& org@ == target.skip(at + 1)
    } else if decodes {
        r matches Ok(Way::Key)
    } else if is_host(target) {
        r matches Ok(Way::Host)
    } else {
        r matches Err(why) && why@ == nameless(target)
    }
}

/// Which of the three ways of naming a controller this is. `decodes` says whether the target
/// is a key.
pub fn way(target: &str, decodes: bool) -> (r: Result<Way, String>)
    ensures
        names(r, target@, decodes),
{
    if let Some((name, org)) = text::split_once(target, '@') {
        return Ok(Way::Enrolled { name: name.to_owned(), org: org.to_owned() });
    }
    if decodes {
        return Ok(Way::Key);
    }
    if looks_like_a_host(target) {
        return Ok(Way::Host);
    }
    let mut why = text::quoted(target);
    why.append(
        " is none of the three ways to name a controller: `name@org` from an enrolled device, a host that publishes /.well-known/cm-controller, or the id52 itself.",
    );
    Err(why)
}

/// The parts of a list that say something, without the space around them.
pub open spec fn said_parts(parts: Seq<Seq<char>>) -> Seq<Seq<char>>
    decreases parts.len(),
{
    if parts.len() == 0 {
        Seq::empty()
    } else {
        let before = said_parts(parts.drop_last());
        if text::trim_of(parts.last()).len() == 0 {
            before
        } else {
            before.push(text::trim_of(parts.last()))
        }
    }
}

/// Where to look for a controller, in order.
pub open spec fn hints_of(own: Seq<char>, published: Seq<Seq<char>>) -> Seq<Seq<char>> {
    said_parts(text::pieces(own, ',')) + published
}

/// Where to look for a controller: what the environment says first, because it is what
/// somebody sets when discovery is wrong, and then what was published.
pub fn hints(own: &str, published: &[String]) -> (r: Vec<String>)
    ensures
        text::texts(r@) == hints_of(own@, text::texts(published@)),
{
    let parts = text::split(own, ',');
    let ghost all = text::texts(parts@);
    let mut list: Vec<String> = Vec::new();
    assert(text::texts(list@) =~= Seq::<Seq<char>>::empty());
    for i in 0..parts.len()
        invariant
            all == text::texts(parts@),
            text::texts(list@) == said_parts(all.take(i as int)),
    {
        assert(all.take(i as int + 1).drop_last() =~= all.take(i as int));
        assert(all.take(i as int + 1).last() == parts@[i as int]@);
        let part = text::trim(parts[i].as_str());
        if !part.is_empty() {
            text::note(&mut list, part.to_owned());
        }
    }
    assert(all.take(all.len() as int) =~= all);
    let ghost own_hints = text::texts(list@);
    let ghost more = text::texts(published@);
    assert(own_hints + more.take(0) =~= own_hints);
    for i in 0..published.len()
        invariant
            more == text::texts(published@),
            text::texts(list@) == own_hints + more.take(i as int),
    {
        text::note(&mut list, published[i].clone());
        assert(own_hints + more.take(i as int + 1) =~= (own_hints + more.take(i as int)).push(
            more[i as int],
        ));
    }
    assert(more.take(more.len() as int) =~= more);
    list
}

// ---------------------------------------------------------------------------
// a token for one key
// ---------------------------------------------------------------------------

pub const ATTEST_ENV: &'static str = "CM_ATTEST";

pub const MINT_ENV: &'static str = "CM_ATTEST_CMD";

pub const HINTS_ENV: &'static str = "CM_CONTROLLER_HINTS";

pub const NO_WAY_TO_PROVE: &'static str =
    "no way to prove who this is. On GitHub Actions, give the job \
     `permissions: id-token: write`; elsewhere set CM_ATTEST_CMD to a command \
     that prints a token for {audience}; or use `name@org` with an \
     enrolled device.";

/// How a token for a key is come by. There is no way to hand in a ready-made one: its
/// audience has to be a key that does not exist until this run starts.
pub enum Mint {
    /// Run this command; what it prints is the token.
    Run(String),
    /// Ask here, with this credential.
    Ask { url: String, bearer: String },
}

pub open spec fn no_integration(which: Seq<char>) -> Seq<char> {
    "no integration for CM_ATTEST="@ + text::quoted_of(which) + "; set CM_ATTEST_CMD instead"@
}

/// How a token whose audience is `mine` is come by, going by what the environment says.
pub open spec fn mints(
    r: Result<Mint, String>,
    mine: Seq<char>,
    template: Option<&str>,
    which: Option<&str>,
    url: Option<&str>,
    bearer: Option<&str>,
) -> bool {
    match template {
        Some(t) if text::trim_of(t@).len() > 0 => {
            &&& r matches Ok(Mint::Run(command))
            &&& command@ == text::replaced(text::trim_of(t@), "{audience}"@, mine)
        },
        _ => {
            let asked = match which {
                Some(w) => w@,
                None => "github"@,
            };
            if asked != "github"@ {
                r matches Err(why) && why@ == no_integration(asked)
            } else {
                match (url, bearer) {
                    (Some(u), Some(b)) => {
                        &&& r matches Ok(Mint::Ask { url: at, bearer: with })
                        &&& at@ == u@ + "&audience="@ + mine
                        &&& with@ == b@
                    },
                    _ => r matches Err(why) && why@ == NO_WAY_TO_PROVE@,
                }
            }
        },
    }
}

/// How to come by a token whose audience is `mine`, going by the environment.
pub fn mint(
    mine: &str,
    template: Option<&str>,
    which: Option<&str>,
    url: Option<&str>,
    bearer: Option<&str>,
) -> (r: Result<Mint, String>)
    ensures
        mints(r, mine@, template, which, url, bearer),
{
    if let Some(t) = template {
        let t = text::trim(t);
        if !t.is_empty() {
            proof {
                reveal_strlit("{audience}");
            }
            return Ok(Mint::Run(text::replace(t, "{audience}", mine)));
        }
    }
    let asked = match which {
        Some(w) => w,
        None => "github",
    };
    if !text::same(asked, "github") {
        let mut why = String::from_str("no integration for CM_ATTEST=");
        why.append(text::quoted(asked).as_str());
        why.append("; set CM_ATTEST_CMD instead");
        return Err(why);
    }
    match (url, bearer) {
        (Some(u), Some(b)) => {
            let mut at = u.to_owned();
            at.append("&audience=");
            at.append(mine);
            Ok(Mint::Ask { url: at, bearer: b.to_owned() })
        },
        _ => Err(NO_WAY_TO_PROVE.to_owned()),
    }
}

/// What comes of a command that was to print a token.
pub open spec fn prints(
    r: Result<String, String>,
    success: bool,
    code: Option<i32>,
    stdout: Seq<char>,
    stderr: Seq<char>,
) -> bool {
    if !success {
        r matches Err(why) && why@ == "CM_ATTEST_CMD failed ("@ + crate::described(code)
            + "): "@ + text::trim_of(stderr)
    } else if text::trim_of(stdout).len() == 0 {
        r matches Err(why) && why@ == "CM_ATTEST_CMD printed nothing"@
    } else {
        r matches Ok(token) && token@ == text::trim_of(stdout)
    }
}

/// The token a command printed, or what went wrong with it.
pub fn minted(success: bool, code: Option<i32>, stdout: &str, stderr: &str) -> (r: Result<
    String,
    String,
>)
    ensures
        prints(r, success, code, stdout@, stderr@),
{
    if !success {
        let mut why = String::from_str("CM_ATTEST_CMD failed (");
        why.append(crate::describe(code).as_str());
        why.append("): ");
        why.append(text::trim(stderr));
        return Err(why);
    }
    let token = text::trim(stdout);
    if token.is_empty() {
        return Err("CM_ATTEST_CMD printed nothing".to_owned());
    }
    Ok(token.to_owned())
}

// ---------------------------------------------------------------------------
// what the controller answered
// ---------------------------------------------------------------------------

/// What an answer to a plea leaves to be done.
pub enum Next {
    /// Say this, and stop: nothing is held.
    Stop(String),
    Fail(String),
    /// Use these machines, and say so.
    Go { lines: Vec<String>, reservation: String, workers: Vec<WorkerHandle> },
    /// No answer to a plea.
    Unexpected(Verdict),
}

pub open spec fn unweighed(fault: Seq<char>) -> Seq<char> {
    "the controller could not weigh this request: "@ + fault
        + "\n  nothing was refused, and nothing was allocated. Tell whoever runs it."@
}

pub open spec fn machine_lines(workers: Seq<WorkerHandle>) -> Seq<Seq<char>> {
    workers.map_values(|w: WorkerHandle| "  "@ + w.name@ + " ("@ + w.key@ + ")"@)
}

pub open spec fn grant_lines(
    reservation: Seq<char>,
    workers: Seq<WorkerHandle>,
    expires_in: u64,
    rationale: Option<Seq<char>>,
) -> Seq<Seq<char>> {
    seq![
        "granted "@ + text::decimal_of(workers.len()) + " machine(s) as "@ + reservation,
    ] + (match rationale {
        Some(why) => seq!["  ("@ + why + ")"@],
        None => Seq::empty(),
    }) + seq!["  expires in "@ + text::decimal_of(expires_in as nat) + "s unless released"@]
        + machine_lines(workers)
}

/// Does this say what an answer means to whoever asked?
pub open spec fn means(next: Next, answer: Option<Answer>) -> bool {
    match answer {
        None => next matches Next::Fail(why) && why@ == "the controller said nothing"@,
        Some(Answer::Fault { fault }) => next matches Next::Fail(why) && why@ == unweighed(fault@),
        Some(Answer::Decided(verdict)) => match verdict {
            Verdict::Would { count, rationale } => next matches Next::Stop(s) && s@
                == "would get "@ + text::decimal_of(count as nat) + " machine(s) — "@
                + rationale@,
            Verdict::Counter { count, rationale } => next matches Next::Stop(s) && s@
                == "countered: "@ + text::decimal_of(count as nat) + " — "@ + rationale@,
            Verdict::Deny { rationale } => next matches Next::Fail(why) && why@ == "denied: "@
                + rationale@,
            Verdict::Grant { reservation, workers, expires_in, rationale } => {
                &&& next matches Next::Go { lines, reservation: id, workers: handles }
                &&& text::texts(lines@) == grant_lines(
                    reservation@,
                    workers@,
                    expires_in,
                    fleet::held_text(rationale),
                )
                &&& id == reservation
                &&& handles == workers
            },
            other => next == Next::Unexpected(other),
        },
    }
}

fn show_grant(
    reservation: &str,
    workers: &[WorkerHandle],
    expires_in: u64,
    rationale: &Option<String>,
) -> (r: Vec<String>)
    ensures
        text::texts(r@) == grant_lines(
            reservation@,
            workers@,
            expires_in,
            fleet::held_text(*rationale),
        ),
{
    let mut lines: Vec<String> = Vec::new();
    assert(text::texts(lines@) =~= Seq::<Seq<char>>::empty());
    let mut s = String::from_str("granted ");
    s.append(text::decimal(workers.len() as u64).as_str());
    s.append(" machine(s) as ");
    s.append(reservation);
    text::note(&mut lines, s);
    if let Some(why) = rationale {
        let mut s = String::from_str("  (");
        s.append(why.as_str());
        s.append(")");
        text::note(&mut lines, s);
    }
    let mut s = String::from_str("  expires in ");
    s.append(text::decimal(expires_in).as_str());
    s.append("s unless released");
    text::note(&mut lines, s);
    let ghost head = text::texts(lines@);
    let ghost more = machine_lines(workers@);
    assert(head + more.take(0) =~= head);
    for i in 0..workers.len()
        invariant
            more == machine_lines(workers@),
            text::texts(lines@) == head + more.take(i as int),
    {
        let mut s = String::from_str("  ");
        s.append(workers[i].name.as_str());
        s.append(" (");
        s.append(workers[i].key.as_str());
        s.append(")");
        text::note(&mut lines, s);
        assert(head + more.take(i as int + 1) =~= (head + more.take(i as int)).push(
            more[i as int],
        ));
    }
    assert(more.take(more.len() as int) =~= more);
    assert(text::texts(lines@) =~= grant_lines(
        reservation@,
        workers@,
        expires_in,
        fleet::held_text(*rationale),
    ));
    lines
}

/// What an answer to a plea means. A fault is not a refusal: nobody read the request, so the
/// fix is the controller's.
pub fn answered(answer: Option<Answer>) -> (r: Next)
    ensures
        means(r, answer),
{
    let verdict = match answer {
        None => return Next::Fail("the controller said nothing".to_owned()),
        Some(Answer::Fault { fault }) => {
            let mut why = String::from_str("the controller could not weigh this request: ");
            why.append(fault.as_str());
            why.append(
                "\n  nothing was refused, and nothing was allocated. Tell whoever runs it.",
            );
            return Next::Fail(why);
        },
        Some(Answer::Decided(verdict)) => verdict,
    };
    match verdict {
        Verdict::Would { count, rationale } => {
            let mut s = String::from_str("would get ");
            s.append(text::decimal(count as u64).as_str());
            s.append(" machine(s) — ");
            s.append(rationale.as_str());
            Next::Stop(s)
        },
        Verdict::Counter { count, rationale } => {
            let mut s = String::from_str("countered: ");
            s.append(text::decimal(count as u64).as_str());
            s.append(" — ");
            s.append(rationale.as_str());
            Next::Stop(s)
        },
        Verdict::Deny { rationale } => {
            let mut why = String::from_str("denied: ");
            why.append(rationale.as_str());
            Next::Fail(why)
        },
        Verdict::Grant { reservation, workers, expires_in, rationale } => {
            let lines = show_grant(
                reservation.as_str(),
                workers.as_slice(),
                expires_in,
                &rationale,
            );
            Next::Go { lines, reservation, workers }
        },
        other => Next::Unexpected(other),
    }
}

/// What an answer to giving machines back means: whether all went well, and what is said.
pub open spec fn gives_back(
    r: (bool, String),
    answer: Option<Answer>,
    reservation: Seq<char>,
) -> bool {
    match answer {
        Some(Answer::Decided(Verdict::Acknowledged)) => r.0 && r.1@ == "released "@
            + reservation,
        Some(Answer::Decided(Verdict::Deny { rationale })) => !r.0 && r.1@
            == "release refused: "@ + rationale@,
        _ => !r.0 && r.1@ == "release unacknowledged"@,
    }
}

/// What is said once machines were given back, and whether all went well.
pub fn released(answer: &Option<Answer>, reservation: &str) -> (r: (bool, String))
    ensures
        gives_back(r, *answer, reservation@),
{
    match answer {
        Some(Answer::Decided(Verdict::Acknowledged)) => {
            let mut s = String::from_str("released ");
            s.append(reservation);
            (true, s)
        },
        Some(Answer::Decided(Verdict::Deny { rationale })) => {
            let mut s = String::from_str("release refused: ");
            s.append(rationale.as_str());
            (false, s)
        },
        _ => (false, "release unacknowledged".to_owned()),
    }
}

/// What an answer to rules that were sent means.
pub enum Sent {
    /// The controller decided: whether it took them, and what to say.
    Decided { taken: bool, line: String },
    Fail(String),
    Unexpected,
}

/// What an answer to rules that were sent means.
pub open spec fn takes(
    r: Sent,
    answer: Option<Answer>,
) -> bool {
    match answer {
        Some(Answer::Decided(Verdict::Acknowledged)) => {
            &&& r matches Sent::Decided { taken, line }
            &&& taken
            &&& line@ == "replaced — the next plea is weighed against this"@
        },
        Some(Answer::Decided(Verdict::Deny { rationale })) => {
            &&& r matches Sent::Decided { taken, line }
            &&& !taken
            &&& line@ == "refused: "@ + rationale@
        },
        Some(Answer::Fault { fault }) => r matches Sent::Fail(why) && why@
            == "the controller faulted: "@ + fault@,
        _ => r is Unexpected,
    }
}

pub fn sent(answer: &Option<Answer>) -> (r: Sent)
    ensures
        takes(r, *answer),
{
    match answer {
        Some(Answer::Decided(Verdict::Acknowledged)) => Sent::Decided {
            taken: true,
            line: "replaced — the next plea is weighed against this".to_owned(),
        },
        Some(Answer::Decided(Verdict::Deny { rationale })) => {
            let mut line = String::from_str("refused: ");
            line.append(rationale.as_str());
            Sent::Decided { taken: false, line }
        },
        Some(Answer::Fault { fault }) => {
            let mut why = String::from_str("the controller faulted: ");
            why.append(fault.as_str());
            Sent::Fail(why)
        },
        _ => Sent::Unexpected,
    }
}

/// What an answer to a look inside means.
pub enum Seen {
    Lines(Vec<String>),
    Fail(String),
    Unexpected,
}

/// What an answer to a look inside means.
pub open spec fn shows(
    r: Seen,
    answer: Option<Answer>,
) -> bool {
    match answer {
        Some(Answer::Decided(Verdict::Saw(sight))) => r == Seen::Lines(sight.lines),
        Some(Answer::Decided(Verdict::Deny { rationale })) => r == Seen::Fail(rationale),
        Some(Answer::Fault { fault }) => r matches Seen::Fail(why) && why@
            == "the controller faulted: "@ + fault@,
        _ => r is Unexpected,
    }
}

pub fn seen(answer: Option<Answer>) -> (r: Seen)
    ensures
        shows(r, answer),
{
    match answer {
        Some(Answer::Decided(Verdict::Saw(sight))) => Seen::Lines(sight.lines),
        Some(Answer::Decided(Verdict::Deny { rationale })) => Seen::Fail(rationale),
        Some(Answer::Fault { fault }) => {
            let mut why = String::from_str("the controller faulted: ");
            why.append(fault.as_str());
            Seen::Fail(why)
        },
        _ => Seen::Unexpected,
    }
}

// ---------------------------------------------------------------------------
// which link is broken
// ---------------------------------------------------------------------------

/// What is said of one link of the chain.
pub open spec fn link(fine: bool, step: Seq<char>, detail: Seq<char>) -> Seq<char> {
    (if fine {
        "  ok    "@
    } else {
        "  FAIL  "@
    }) + text::widened(step, 22) + " "@ + detail
}

pub fn tell(fine: bool, step: &str, detail: &str) -> (r: String)
    ensures
        r@ == link(fine, step@, detail@),
{
    let mut r = if fine {
        String::from_str("  ok    ")
    } else {
        String::from_str("  FAIL  ")
    };
    r.append(text::widen(step, 22).as_str());
    r.append(" ");
    r.append(detail);
    r
}

/// The name and the organisation that a ping is for.
pub fn ping_target(target: &str) -> (r: Result<(String, String), String>)
    ensures
        ({
            let at = text::place_of(target@, '@');
            match r {
                Ok(pair) => {
                    &&& at < target@.len()
                    &&& pair.0@ == target@.take(at)
                    &&& pair.1@ == target@.skip(at + 1)
                },
                Err(s) => {
                    &&& at == target@.len()
                    &&& s@ == link(
                        false,
                        "target"@,
                        text::quoted_of(target@) + " is not name@org"@,
                    )
                },
            }
        }),
{
    match text::split_once(target, '@') {
        Some((name, org)) => Ok((name.to_owned(), org.to_owned())),
        None => {
            let mut detail = text::quoted(target);
            detail.append(" is not name@org");
            Err(tell(false, "target", detail.as_str()))
        },
    }
}

/// What is said of dialling a controller: how it was found, or why it was not.
pub fn dialled(hints: &[String], failed: Option<&str>) -> (r: String)
    ensures
        ({
            let list = text::list_of(text::texts(hints@));
            match failed {
                None => r@ == link(
                    true,
                    "dial"@,
                    if hints@.len() == 0 {
                        "found by discovery"@
                    } else {
                        list
                    },
                ),
                Some(e) => r@ == link(
                    false,
                    "dial"@,
                    e@ + " — "@ + if hints@.len() == 0 {
                        "no hints, so this needed discovery"@
                    } else {
                        "tried "@ + list + ", then discovery"@
                    },
                ),
            }
        }),
{
    match failed {
        None => {
            if hints.len() == 0 {
                return tell(true, "dial", "found by discovery");
            }
            tell(true, "dial", text::list(hints).as_str())
        },
        Some(e) => {
            let mut detail = e.to_owned();
            detail.append(" — ");
            if hints.len() == 0 {
                detail.append("no hints, so this needed discovery");
            } else {
                let mut tried = String::from_str("tried ");
                tried.append(text::list(hints).as_str());
                tried.append(", then discovery");
                detail.append(tried.as_str());
            }
            tell(false, "dial", detail.as_str())
        },
    }
}

/// What the last link came to.
pub enum Pinged {
    Told { fine: bool, line: String },
    Unexpected(Verdict),
}

/// What an answer to a ping means.
pub open spec fn pings(
    r: Pinged,
    answer: Result<Option<Answer>, String>,
) -> bool {
    match answer {
        Ok(Some(Answer::Decided(verdict))) => match verdict {
            Verdict::Pong => {
                &&& r matches Pinged::Told { fine, line }
                &&& fine
                &&& line@ == link(
                    true,
                    "auth"@,
                    "the controller accepted our ticket"@,
                )
            },
            Verdict::Deny { rationale } => {
                &&& r matches Pinged::Told { fine, line }
                &&& !fine
                &&& line@ == link(false, "auth"@, rationale@)
            },
            other => r == Pinged::Unexpected(other),
        },
        Ok(Some(Answer::Fault { fault })) => {
            &&& r matches Pinged::Told { fine, line }
            &&& !fine
            &&& line@ == link(false, "controller"@, fault@)
        },
        Ok(None) => {
            &&& r matches Pinged::Told { fine, line }
            &&& !fine
            &&& line@ == link(
                false,
                "auth"@,
                "the controller hung up without answering"@,
            )
        },
        Err(e) => {
            &&& r matches Pinged::Told { fine, line }
            &&& !fine
            &&& line@ == link(false, "auth"@, e@)
        },
    }
}

/// What an answer to a ping means. A fault is the controller's to fix, and everything else
/// here is about who is asking.
pub fn pinged(answer: Result<Option<Answer>, String>) -> (r: Pinged)
    ensures
        pings(r, answer),
{
    match answer {
        Ok(Some(Answer::Decided(verdict))) => match verdict {
            Verdict::Pong => Pinged::Told {
                fine: true,
                line: tell(true, "auth", "the controller accepted our ticket"),
            },
            Verdict::Deny { rationale } => Pinged::Told {
                fine: false,
                line: tell(false, "auth", rationale.as_str()),
            },
            other => Pinged::Unexpected(other),
        },
        Ok(Some(Answer::Fault { fault })) => Pinged::Told {
            fine: false,
            line: tell(false, "controller", fault.as_str()),
        },
        Ok(None) => Pinged::Told {
            fine: false,
            line: tell(false, "auth", "the controller hung up without answering"),
        },
        Err(e) => Pinged::Told { fine: false, line: tell(false, "auth", e.as_str()) },
    }
}

/// What became of a link before the controller was dialled.
pub enum Link {
    /// This device has no configuration: it never got as far as enrolling.
    NoHome { home: String, why: String },
    NoKey { why: String },
    Identity { name: String, key: String },
    NoParent,
    /// Our own organisation did not answer. Everything else goes through it.
    Unreached { why: String },
    Parent { address: String },
    Unresolved { why: String },
    Resolved { target: String, device: String },
}

/// Is this link whole?
pub open spec fn whole(found: Link) -> bool {
    found is Identity || found is Parent || found is Resolved
}

/// What is said of a link before the controller was dialled.
pub open spec fn link_line(found: Link) -> Seq<char> {
    match found {
        Link::NoHome { home, why } => link(
            false,
            "identity"@,
            home@ + ": "@ + why@ + " — has `cm init` run here?"@,
        ),
        Link::NoKey { why } => link(false, "identity"@, "cannot read our own key: "@ + why@),
        Link::Identity { name, key } => link(
            true,
            "identity"@,
            "`"@ + name@ + "` is "@ + key@,
        ),
        Link::NoParent => link(false, "our sirji"@, "no parent address in cm.toml"@),
        Link::Unreached { why } => link(
            false,
            "our sirji"@,
            why@ + " — is the daemon running (`sirji daemon`)?"@,
        ),
        Link::Parent { address } => link(true, "our sirji"@, "reached "@ + address@),
        Link::Unresolved { why } => link(false, "resolve"@, why@),
        Link::Resolved { target, device } => link(
            true,
            "resolve"@,
            target@ + " is "@ + device@,
        ),
    }
}

/// Whether a link is whole, and what is said of it. Each has a fix of its own, and telling
/// them apart is the point.
pub fn tell_link(found: &Link) -> (r: (bool, String))
    ensures
        r.0 == whole(*found),
        r.1@ == link_line(*found),
{
    match found {
        Link::NoHome { home, why } => {
            let mut s = home.clone();
            s.append(": ");
            s.append(why.as_str());
            s.append(" — has `cm init` run here?");
            (false, tell(false, "identity", s.as_str()))
        },
        Link::NoKey { why } => {
            let mut s = String::from_str("cannot read our own key: ");
            s.append(why.as_str());
            (false, tell(false, "identity", s.as_str()))
        },
        Link::Identity { name, key } => {
            let mut s = String::from_str("`");
            s.append(name.as_str());
            s.append("` is ");
            s.append(key.as_str());
            (true, tell(true, "identity", s.as_str()))
        },
        Link::NoParent => (false, tell(false, "our sirji", "no parent address in cm.toml")),
        Link::Unreached { why } => {
            let mut s = why.clone();
            s.append(" — is the daemon running (`sirji daemon`)?");
            (false, tell(false, "our sirji", s.as_str()))
        },
        Link::Parent { address } => {
            let mut s = String::from_str("reached ");
            s.append(address.as_str());
            (true, tell(true, "our sirji", s.as_str()))
        },
        Link::Unresolved { why } => (false, tell(false, "resolve", why.as_str())),
        Link::Resolved { target, device } => {
            let mut s = target.clone();
            s.append(" is ");
            s.append(device.as_str());
            (true, tell(true, "resolve", s.as_str()))
        },
    }
}

// ---------------------------------------------------------------------------
// what each machine is sent
// ---------------------------------------------------------------------------

proof fn lemma_digits_hold_no_brace(n: nat)
    ensures
        text::lacks(text::decimal_of(n), '{'),
{
    text::lemma_decimal_reads_back(n);
    assert forall|i: int| 0 <= i < text::decimal_of(n).len() implies #[trigger] text::decimal_of(
        n,
    )[i] != '{' by {
        assert(text::is_digit(text::decimal_of(n)[i]));
    }
}

/// Where only one brace opens in a stretch, a part that is not found there is found nowhere in
/// it.
proof fn lemma_one_brace(x: Seq<char>, at: int, rest: Seq<char>, part: Seq<char>, by: Seq<char>, k: int)
    requires
        part.len() > 0,
        part[0] == '{',
        forall|i: int| 0 <= i < x.len() && i != at ==> #[trigger] x[i] != '{',
        0 <= at ==> 0 <= k < part.len() && at + k < x.len() && x[at + k] != part[k],
    ensures
        text::replaced(x + rest, part, by) == x + text::replaced(rest, part, by),
{
    let s = x + rest;
    assert forall|j: int|
        0 <= j < x.len() && j + part.len() <= x.len() + rest.len() implies #[trigger] s.subrange(
        j,
        j + part.len(),
    ) != part by {
        let here = s.subrange(j, j + part.len());
        assert(here[0] == x[j]);
        if j == at {
            assert(here[k] == x[at + k]);
        }
    }
    text::lemma_replaced_past(x, rest, part, by);
}

/// A text without a brace is the same for every machine.
pub proof fn law_what_has_no_placeholder_stays_as_it_is(s: Seq<char>, index: u32, total: u32)
    requires
        text::lacks(s, '{'),
    ensures
        shaped_of(s, index, total) == s,
{
    reveal_strlit("{shard}");
    reveal_strlit("{index}");
    reveal_strlit("{shards}");
    text::lemma_replaced_none(s, "{shard}"@, text::decimal_of((index + 1) as nat));
    text::lemma_replaced_none(s, "{index}"@, text::decimal_of(index as nat));
    text::lemma_replaced_none(s, "{shards}"@, text::decimal_of(total as nat));
}

/// `{shard}` is a machine's number, counted from one, and `{shards}` how many there are.
pub proof fn law_a_shard_and_their_number_are_filled_in(
    a: Seq<char>,
    b: Seq<char>,
    c: Seq<char>,
    index: u32,
    total: u32,
)
    requires
        text::lacks(a, '{'),
        text::lacks(b, '{'),
        text::lacks(c, '{'),
    ensures
        shaped_of(a + "{shard}"@ + b + "{shards}"@ + c, index, total) == a + text::decimal_of(
            (index + 1) as nat,
        ) + b + text::decimal_of(total as nat) + c,
{
    reveal_strlit("{shard}");
    reveal_strlit("{index}");
    reveal_strlit("{shards}");
    let one = "{shard}"@;
    let two = "{index}"@;
    let all = "{shards}"@;
    let shard = text::decimal_of((index + 1) as nat);
    let at = text::decimal_of(index as nat);
    let of = text::decimal_of(total as nat);
    lemma_digits_hold_no_brace((index + 1) as nat);
    let s = a + one + b + all + c;
    let x = b + all;
    let t = a + shard + b + all + c;
    assert(text::replaced(s, one, shard) == t) by {
        assert(s =~= a + (one + (x + c)));
        lemma_one_brace(a, -1, one + (x + c), one, shard, 0);
        text::lemma_replaced_head(x + c, one, shard);
        lemma_one_brace(x, b.len() as int, c, one, shard, 6);
        text::lemma_replaced_none(c, one, shard);
        assert(t =~= a + (shard + (x + c)));
    }
    let y = a + shard + b + all;
    assert(text::replaced(t, two, at) == t) by {
        assert(t =~= y + c);
        lemma_one_brace(y, (a + shard + b).len() as int, c, two, at, 1);
        text::lemma_replaced_none(c, two, at);
    }
    let head = a + shard + b;
    assert(text::replaced(t, all, of) == head + of + c) by {
        assert(t =~= head + (all + c));
        lemma_one_brace(head, -1, all + c, all, of, 0);
        text::lemma_replaced_head(c, all, of);
        text::lemma_replaced_none(c, all, of);
        assert(head + (of + c) =~= head + of + c);
    }
}

/// `{index}` is a machine's number, counted from nought.
pub proof fn law_an_index_is_filled_in(a: Seq<char>, b: Seq<char>, index: u32, total: u32)
    requires
        text::lacks(a, '{'),
        text::lacks(b, '{'),
    ensures
        shaped_of(a + "{index}"@ + b, index, total) == a + text::decimal_of(index as nat) + b,
{
    reveal_strlit("{shard}");
    reveal_strlit("{index}");
    reveal_strlit("{shards}");
    let one = "{shard}"@;
    let two = "{index}"@;
    let all = "{shards}"@;
    let shard = text::decimal_of((index + 1) as nat);
    let at = text::decimal_of(index as nat);
    let of = text::decimal_of(total as nat);
    lemma_digits_hold_no_brace(index as nat);
    let s = a + two + b;
    assert(text::replaced(s, one, shard) == s) by {
        lemma_one_brace(a + two, a.len() as int, b, one, shard, 1);
        text::lemma_replaced_none(b, one, shard);
        assert(s =~= a + two + b);
    }
    let t = a + at + b;
    assert(text::replaced(s, two, at) == t) by {
        assert(s =~= a + (two + b));
        lemma_one_brace(a, -1, two + b, two, at, 0);
        text::lemma_replaced_head(b, two, at);
        text::lemma_replaced_none(b, two, at);
        assert(t =~= a + (at + b));
    }
    text::lemma_replaced_none(t, all, of);
}

/// Every machine is sent its own part of the work, and the same of everything else: for a
/// command with its shard and their number in it, the command with both filled in, its own
/// place and how many there are, the same code to fetch and the same folder to run in.
pub proof fn law_every_machine_is_sent_its_own_shard(
    up: Upadesh,
    job: Job,
    id: Seq<char>,
    place: u32,
    of: u32,
    a: Seq<char>,
    b: Seq<char>,
    c: Seq<char>,
)
    requires
        runs(up, job, id, place, of),
        text::lacks(a, '{'),
        text::lacks(b, '{'),
        text::lacks(c, '{'),
    ensures
        up matches Upadesh::Run { reservation, command, workspace, cwd, env, collect, index, total }
            && {
            &&& reservation@ == id
            &&& index == place
            &&& total == of
            &&& job.command@ == a + "{shard}"@ + b + "{shards}"@ + c ==> command@ == a
                + text::decimal_of((place + 1) as nat) + b + text::decimal_of(of as nat) + c
            &&& job.command@ == a + "{index}"@ + b ==> command@ == a + text::decimal_of(
                place as nat,
            ) + b
            &&& job.command@ == a ==> command@ == a
            &&& job.workspace is Some <==> workspace is Some
            &&& job.workspace matches Some(w) ==> {
                &&& workspace->0.repo@ == w.repo@
                &&& workspace->0.git_ref@ == w.git_ref@
                &&& w.dir matches Some(dir) ==> workspace->0.dir matches Some(d) && d@ == dir@
                &&& w.dir is None ==> workspace->0.dir is None
                &&& w.setup matches Some(setup) ==> workspace->0.setup matches Some(d) && d@
                    == setup@
                &&& w.setup is None ==> workspace->0.setup is None
            }
            &&& job.cwd matches Some(dir) ==> cwd matches Some(d) && d@ == dir@
            &&& job.cwd is None ==> cwd is None
            &&& env@.len() == job.env@.len()
            &&& collect@.len() == job.collect@.len()
            &&& forall|i: int|
                0 <= i < env@.len() ==> {
                    &&& (#[trigger] env@[i]).0@ == job.env@[i].0@
                    &&& job.env@[i].1@ == a + "{shard}"@ + b + "{shards}"@ + c ==> env@[i].1@ == a
                        + text::decimal_of((place + 1) as nat) + b + text::decimal_of(of as nat) + c
                    &&& job.env@[i].1@ == a ==> env@[i].1@ == a
                }
            &&& forall|i: int|
                0 <= i < collect@.len() ==> {
                    &&& job.collect@[i]@ == a + "{shard}"@ + b + "{shards}"@ + c ==> (
                    #[trigger] collect@[i])@ == a + text::decimal_of((place + 1) as nat) + b
                        + text::decimal_of(of as nat) + c
                    &&& job.collect@[i]@ == a ==> collect@[i]@ == a
                }
        },
{
    law_a_shard_and_their_number_are_filled_in(a, b, c, place, of);
    law_an_index_is_filled_in(a, b, place, of);
    law_what_has_no_placeholder_stays_as_it_is(a, place, of);
    match up {
        Upadesh::Run { reservation, command, workspace, cwd, env, collect, index, total } => {
            let named = pairs(job.env@).map_values(
                |p: (Seq<char>, Seq<char>)| (p.0, shaped_of(p.1, place, of)),
            );
            assert(pairs(env@).len() == named.len());
            assert forall|i: int| 0 <= i < env@.len() implies (#[trigger] env@[i]).0@
                == job.env@[i].0@ && env@[i].1@ == shaped_of(job.env@[i].1@, place, of) by {
                assert(pairs(env@)[i] == named[i]);
            }
            let wanted = text::texts(job.collect@).map_values(
                |p: Seq<char>| shaped_of(p, place, of),
            );
            assert(text::texts(collect@).len() == wanted.len());
            assert forall|i: int| 0 <= i < collect@.len() implies (#[trigger] collect@[i])@
                == shaped_of(job.collect@[i]@, place, of) by {
                assert(text::texts(collect@)[i] == wanted[i]);
            }
        },
    }
}

/// No two machines of one run are sent the same command, where its shard stands in it.
pub proof fn law_no_two_machines_are_sent_the_same_command(
    a: Seq<char>,
    b: Seq<char>,
    c: Seq<char>,
    one: u32,
    other: u32,
    total: u32,
)
    requires
        one != other,
        text::lacks(a, '{'),
        text::lacks(b, '{'),
        text::lacks(c, '{'),
        b.len() > 0,
        !text::is_digit(b[0]),
    ensures
        shaped_of(a + "{shard}"@ + b + "{shards}"@ + c, one, total) != shaped_of(
            a + "{shard}"@ + b + "{shards}"@ + c,
            other,
            total,
        ),
{
    law_a_shard_and_their_number_are_filled_in(a, b, c, one, total);
    law_a_shard_and_their_number_are_filled_in(a, b, c, other, total);
    let x = text::decimal_of((one + 1) as nat);
    let y = text::decimal_of((other + 1) as nat);
    text::lemma_decimal_reads_back((one + 1) as nat);
    text::lemma_decimal_reads_back((other + 1) as nat);
    let tail = b + text::decimal_of(total as nat) + c;
    let s = a + x + b + text::decimal_of(total as nat) + c;
    let t = a + y + b + text::decimal_of(total as nat) + c;
    if s == t {
        let n = a.len() as int;
        if x.len() < y.len() {
            assert(s[n + x.len()] == b[0]);
            assert(t[n + x.len()] == y[x.len() as int]);
            assert(text::is_digit(y[x.len() as int]));
        } else if y.len() < x.len() {
            assert(t[n + y.len()] == b[0]);
            assert(s[n + y.len()] == x[y.len() as int]);
            assert(text::is_digit(x[y.len() as int]));
        } else {
            assert(s.subrange(n, n + x.len()) =~= x);
            assert(t.subrange(n, n + x.len()) =~= y);
        }
    }
}

/// A run went well exactly where every machine ended with nought: one that failed, was killed or
/// fell silent, wherever it stands, is enough for it not to have.
pub proof fn law_one_failing_shard_fails_the_run(results: Seq<Result<Shard, String>>)
    ensures
        went_well(results) <==> forall|i: int|
            0 <= i < results.len() ==> ((#[trigger] results[i]) matches Ok(shard) && shard.code
                == Some(0i32)),
{
    if went_well(results) {
        assert forall|i: int| 0 <= i < results.len() implies ((#[trigger] results[i]) matches Ok(
            shard,
        ) && shard.code == Some(0i32)) by {
            assert(did(results[i]));
        }
    }
}

/// Every line that a machine prints is passed on under its name, on the stream it came from;
/// how its part ended is taken as it says, and a machine that refuses or falls silent has
/// failed.
pub proof fn law_what_a_machine_says_is_passed_on(
    r: Heard,
    outcome: Option<Outcome>,
    name: Seq<char>,
)
    requires
        hears(r, outcome, name),
    ensures
        outcome matches Some(Outcome::Log { line, stderr, .. }) ==> {
            &&& r matches Heard::Say { line: said, stderr: e }
            &&& said@ == "["@ + name + "] "@ + line@
            &&& e == stderr
        },
        outcome matches Some(Outcome::Done { worker, index, code, artifacts }) ==> {
            &&& r matches Heard::Done(shard)
            &&& shard.worker == worker
            &&& shard.index == index
            &&& shard.code == code
            &&& shard.artifacts == artifacts
        },
        outcome is None ==> r is Failed,
        outcome matches Some(Outcome::No { reason }) ==> r matches Heard::Failed(why)
            && text::ends(why@, reason@),
{
    if let Some(Outcome::No { reason }) = outcome {
        if let Heard::Failed(why) = r {
            assert(why@.skip(why@.len() - reason@.len()) =~= reason@);
        }
    }
}

/// A file is kept exactly where it has a name and can be read, with everything that is in it,
/// and in the folder of the shard that sent it.
pub proof fn law_every_file_that_can_be_is_kept(
    r: Result<Kept, String>,
    dir: Seq<char>,
    index: u32,
    sent: Artifact,
    name: Seq<char>,
    bytes: Seq<u8>,
)
    requires
        keeps(r, dir, index, sent),
        path::file_name_of(sent.path@) == Some(name),
        crate::unbase64_of(sent.base64@) == Ok::<Seq<u8>, Seq<char>>(bytes),
    ensures
        r matches Ok(kept) && {
            &&& kept.bytes@ == bytes
            &&& kept.path@ == path::inside(dir) + "shard-"@ + text::decimal_of((index + 1) as nat)
                + "/"@ + name
        },
{
    law_a_worker_cannot_choose_where_our_files_land(dir, index, sent.path@);
}

/// A controller that is named `name@org` is resolved by that organisation; otherwise a key is
/// dialled, a host is asked, and anything else is refused.
pub proof fn law_a_controller_is_named_in_one_of_three_ways(
    r: Result<Way, String>,
    name: Seq<char>,
    org: Seq<char>,
    target: Seq<char>,
    decodes: bool,
)
    requires
        names(r, target, decodes),
        text::lacks(name, '@'),
    ensures
        target == name + "@"@ + org ==> (r matches Ok(Way::Enrolled { name: n, org: o }) && n@
            == name && o@ == org),
        text::lacks(target, '@') && decodes ==> r matches Ok(Way::Key),
        text::lacks(target, '@') && !decodes && is_host(target) ==> r matches Ok(Way::Host),
        text::lacks(target, '@') && !decodes && !is_host(target) ==> r is Err,
{
    reveal_strlit("@");
    if target == name + "@"@ + org {
        let k = name.len() as int;
        assert forall|i: int| 0 <= i < k implies target[i] != '@' by {
            assert(target[i] == name[i]);
        }
        text::lemma_place_is(target, '@', k);
        assert(target.take(k) =~= name);
        assert(target.skip(k + 1) =~= org);
    }
    if text::lacks(target, '@') {
        text::lemma_place_is(target, '@', target.len() as int);
    }
}

/// What has a dot in it, or begins as an address does, is taken for a host.
pub proof fn law_a_host_has_a_dot_or_a_scheme(a: Seq<char>, b: Seq<char>)
    ensures
        is_host(a + "."@ + b),
        is_host("https://"@ + b),
        is_host("http://"@ + b),
{
    reveal_strlit(".");
    reveal_strlit("https://");
    reveal_strlit("http://");
    let dotted = a + "."@ + b;
    text::lemma_find_from(dotted, "."@, 0);
    assert(dotted.subrange(a.len() as int, a.len() as int + 1) =~= "."@);
    assert(("https://"@ + b).take(8) =~= "https://"@);
    assert(("http://"@ + b).take(7) =~= "http://"@);
}

/// A name without a dot, a slash or a colon is no host.
pub proof fn law_a_bare_word_is_no_host(word: Seq<char>)
    requires
        text::lacks(word, '.'),
        text::lacks(word, ':'),
    ensures
        !is_host(word),
{
    reveal_strlit(".");
    reveal_strlit("https://");
    reveal_strlit("http://");
    text::lemma_find_from(word, "."@, 0);
    if let Some(k) = text::find_from(word, "."@, 0) {
        assert(word.subrange(k, k + 1)[0] == word[k]);
    }
    if text::begins(word, "https://"@) {
        assert(word.take(8)[5] == word[5]);
    }
    if text::begins(word, "http://"@) {
        assert(word.take(7)[4] == word[4]);
    }
}

/// A host is asked at the one place where hosts publish their controller, over https unless the
/// address says otherwise.
pub proof fn law_a_host_is_asked_where_hosts_publish(host: Seq<char>)
    requires
        text::lacks(host, ':'),
        host.len() > 0,
        host.last() != '/',
        !text::holds("http://"@ + host, "/.well-known/cm-controller"@),
    ensures
        document_at(host) == "https://"@ + host + "/.well-known/cm-controller"@,
        document_at("http://"@ + host) == "http://"@ + host + "/.well-known/cm-controller"@,
{
    reveal_strlit("://");
    reveal_strlit("http://");
    text::lemma_find_from(host, "://"@, 0);
    if let Some(k) = text::find_from(host, "://"@, 0) {
        assert(host.subrange(k, k + 3)[0] == host[k]);
    }
    let url = "http://"@ + host;
    text::lemma_find_from(url, "://"@, 0);
    assert(url.subrange(4, 4 + "://"@.len() as int) =~= "://"@);
    assert(url.last() == host.last());
    assert(text::without_end(url, '/') == url);
}

/// An address that is already that of the document is asked as it stands.
pub proof fn law_a_full_address_is_asked_as_it_stands(host: Seq<char>)
    ensures
        document_at("https://"@ + host + "/.well-known/cm-controller"@) == "https://"@ + host
            + "/.well-known/cm-controller"@,
{
    reveal_strlit("://");
    reveal_strlit("https://");
    let url = "https://"@ + host + "/.well-known/cm-controller"@;
    text::lemma_find_from(url, "://"@, 0);
    assert(url.subrange(5, 5 + "://"@.len() as int) =~= "://"@);
    text::lemma_find_from(url, "/.well-known/cm-controller"@, 0);
    let k = ("https://"@ + host).len() as int;
    assert(url.subrange(k, k + "/.well-known/cm-controller"@.len())
        =~= "/.well-known/cm-controller"@);
}

/// What somebody set is tried before what was published: one part after another, without the
/// space around each, and without those that say nothing.
pub proof fn law_what_was_set_is_tried_first(
    own: Seq<char>,
    more: Seq<char>,
    published: Seq<Seq<char>>,
)
    requires
        text::lacks(more, ','),
    ensures
        hints_of(Seq::empty(), published) == published,
        text::trim_of(more).len() == 0 ==> hints_of(own + ","@ + more, published) == hints_of(
            own,
            published,
        ),
        text::trim_of(more).len() > 0 ==> hints_of(own + ","@ + more, Seq::empty()) == hints_of(
            own,
            Seq::empty(),
        ).push(text::trim_of(more)),
        hints_of(own, published) == hints_of(own, Seq::empty()) + published,
{
    reveal_strlit(",");
    let all = own + ","@ + more;
    assert(all =~= own + seq![','] + more);
    text::lemma_pieces_last(own, ',', more);
    let parts = text::pieces(own, ',');
    assert((parts + seq![more]).drop_last() =~= parts);
    assert((parts + seq![more]).last() == more);
    let none = Seq::<Seq<char>>::empty();
    assert(said_parts(parts) + none =~= said_parts(parts));
    assert(said_parts(parts + seq![more]) + none =~= said_parts(parts + seq![more]));
    let nothing = Seq::<char>::empty();
    text::lemma_place_is(nothing, ',', 0);
    assert(text::pieces(nothing, ',') =~= seq![nothing]);
    assert(text::trim_start_of(nothing) == nothing);
    assert(text::trim_end_of(nothing) == nothing);
    assert(seq![nothing].drop_last() =~= none);
    assert(said_parts(none) =~= none);
    assert(said_parts(seq![nothing]) =~= none);
    assert(none + published =~= published);
}

/// A command that somebody set mints the token, with this run's own key where it says
/// `{audience}`; without one, the build service is asked for it, and without either nobody is.
pub proof fn law_a_token_is_minted_for_this_run(
    r: Result<Mint, String>,
    mine: Seq<char>,
    template: Option<&str>,
    which: Option<&str>,
    url: Option<&str>,
    bearer: Option<&str>,
    a: Seq<char>,
    b: Seq<char>,
)
    requires
        mints(r, mine, template, which, url, bearer),
        text::lacks(a, '{'),
        text::lacks(b, '{'),
    ensures
        template matches Some(t) && text::trim_of(t@) == a + "{audience}"@ + b ==> (r matches Ok(
            Mint::Run(command),
        ) && command@ == a + mine + b),
        template is None && which is None && url is Some && bearer is Some ==> (r matches Ok(
            Mint::Ask { url: at, bearer: with },
        ) && at@ == url->0@ + "&audience="@ + mine && with@ == bearer->0@),
        template is None && (url is None || bearer is None) ==> r is Err,
        template is None && (which matches Some(w) && w@ != "github"@) ==> r is Err,
{
    reveal_strlit("{audience}");
    let part = "{audience}"@;
    if let Some(t) = template {
        if text::trim_of(t@) == a + part + b {
            let rest = part + b;
            assert(a + part + b =~= a + rest);
            assert(rest.len() > 0);
            assert forall|k: int|
                0 <= k < a.len() && k + part.len() <= a.len() + rest.len() implies #[trigger] (a
                + rest).subrange(k, k + part.len()) != part by {
                assert((a + rest).subrange(k, k + part.len())[0] == a[k]);
            }
            text::lemma_replaced_past(a, rest, part, mine);
            text::lemma_replaced_head(b, part, mine);
            text::lemma_replaced_none(b, part, mine);
            assert(a + (mine + b) =~= a + mine + b);
        }
    }
}

/// A token is what the command printed, without the space around it; one that failed or printed
/// nothing gave none.
pub proof fn law_a_token_is_what_was_printed(
    r: Result<String, String>,
    success: bool,
    code: Option<i32>,
    stdout: Seq<char>,
    stderr: Seq<char>,
)
    requires
        prints(r, success, code, stdout, stderr),
    ensures
        r is Ok <==> success && text::trim_of(stdout).len() > 0,
        r matches Ok(token) ==> token@ == text::trim_of(stdout),
{
}

/// A grant is used: every machine that was granted, under the reservation that holds them. What
/// would be or could be had holds nothing, a refusal fails, and so does a controller that could
/// not decide or said nothing.
pub proof fn law_only_a_grant_is_used(next: Next, answer: Option<Answer>)
    requires
        means(next, answer),
    ensures
        next is Go <==> (answer matches Some(Answer::Decided(Verdict::Grant { .. }))),
        answer matches Some(Answer::Decided(Verdict::Grant { reservation: id, workers: all, .. }))
            ==> (next matches Next::Go { reservation, workers, .. } && reservation == id && workers
            == all),
        next is Stop <==> (answer matches Some(Answer::Decided(Verdict::Would { .. }))) || (
        answer matches Some(Answer::Decided(Verdict::Counter { .. }))),
        next is Fail <==> answer is None || (answer matches Some(Answer::Fault { .. })) || (
        answer matches Some(Answer::Decided(Verdict::Deny { .. }))),
{
}

/// Giving back went well exactly where it was acknowledged; rules were taken exactly where that
/// was; a ping was answered exactly where there was a pong.
pub proof fn law_only_a_yes_is_a_yes(
    back: (bool, String),
    taken: Sent,
    pong: Pinged,
    answer: Option<Answer>,
    reservation: Seq<char>,
)
    requires
        gives_back(back, answer, reservation),
        takes(taken, answer),
        pings(pong, Ok(answer)),
    ensures
        back.0 <==> (answer matches Some(Answer::Decided(Verdict::Acknowledged))),
        (taken matches Sent::Decided { taken: yes, .. } && yes) <==> (answer matches Some(
            Answer::Decided(Verdict::Acknowledged),
        )),
        (pong matches Pinged::Told { fine, .. } && fine) <==> (answer matches Some(
            Answer::Decided(Verdict::Pong),
        )),
{
}

/// A look inside shows the lines that came back, and a refusal is one.
pub proof fn law_what_was_seen_is_shown(r: Seen, answer: Option<Answer>)
    requires
        shows(r, answer),
    ensures
        answer matches Some(Answer::Decided(Verdict::Saw(sight))) ==> r == Seen::Lines(sight.lines),
        answer matches Some(Answer::Decided(Verdict::Deny { .. })) ==> r is Fail,
        answer matches Some(Answer::Fault { .. }) ==> r is Fail,
        answer is None ==> r is Unexpected,
{
}

/// A grant is told with every machine in it, in order, behind how many there are.
pub proof fn law_every_machine_of_a_grant_is_told(
    reservation: Seq<char>,
    workers: Seq<WorkerHandle>,
    expires_in: u64,
    rationale: Option<Seq<char>>,
    i: int,
)
    requires
        0 <= i < workers.len(),
    ensures
        ({
            let lines = grant_lines(reservation, workers, expires_in, rationale);
            &&& lines.len() == workers.len() + if rationale is Some {
                3int
            } else {
                2
            }
            &&& lines[lines.len() - workers.len() + i] == "  "@ + workers[i].name@ + " ("@
                + workers[i].key@ + ")"@
            &&& lines[0] == "granted "@ + text::decimal_of(workers.len()) + " machine(s) as "@
                + reservation
        }),
{
}

/// What a controller answers is passed on in its own words, with the number where there is one.
pub proof fn law_an_answer_is_passed_on_in_its_own_words(next: Next, answer: Option<Answer>)
    requires
        means(next, answer),
    ensures
        answer matches Some(Answer::Decided(Verdict::Would { count, rationale })) ==> (
        next matches Next::Stop(s) && s@ == "would get "@ + text::decimal_of(count as nat)
            + " machine(s) — "@ + rationale@),
        answer matches Some(Answer::Decided(Verdict::Counter { count, rationale })) ==> (
        next matches Next::Stop(s) && s@ == "countered: "@ + text::decimal_of(count as nat)
            + " — "@ + rationale@),
        answer matches Some(Answer::Decided(Verdict::Deny { rationale })) ==> (
        next matches Next::Fail(s) && s@ == "denied: "@ + rationale@),
{
}

} // verus!
