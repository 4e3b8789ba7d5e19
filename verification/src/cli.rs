//! What is typed on a command line, and what it means.

use vstd::prelude::*;
use vstd::string::*;

use crate::fleet;
use crate::proto::{Look, Nivedana, Workspace};
use crate::table::Table;
use crate::tenant::{Terms, TermsView};
use crate::tester;
use crate::tester::{Job, WorkspaceView};
use crate::text;
use crate::worker::Hygiene;

verus! {

// ---------------------------------------------------------------------------
// reading options one after the other
// ---------------------------------------------------------------------------

/// What stands behind the first of some arguments.
pub open spec fn value_of(args: Seq<Seq<char>>) -> Option<Seq<char>> {
    if args.len() > 1 {
        Some(args[1])
    } else {
        None
    }
}

/// The arguments behind the first `n`.
pub open spec fn behind(args: Seq<Seq<char>>, n: int) -> Seq<Seq<char>> {
    if args.len() <= n {
        Seq::empty()
    } else {
        args.skip(n)
    }
}

/// The number that stands behind the first of some arguments, where one that fits does.
pub open spec fn number_behind(args: Seq<Seq<char>>, most: nat) -> Option<nat> {
    match value_of(args) {
        Some(v) => text::number_of(v, most),
        None => None,
    }
}

pub open spec fn unrecognised(arg: Seq<char>) -> Seq<char> {
    "unrecognised argument: "@ + arg
}

/// Something that is filled in from arguments, a few at a time.
pub trait Options: View + Sized {
    /// What it is once the first of some arguments was taken in, and how many were used up; or
    /// what is wrong with them.
    spec fn took(v: <Self as View>::V, args: Seq<Seq<char>>) -> Result<
        (<Self as View>::V, int),
        Seq<char>,
    >;

    fn take(&mut self, args: &[String], i: usize) -> (r: Result<usize, String>)
        requires
            i < args@.len(),
        ensures
            match r {
                Ok(n) => {
                    &&& Self::took(old(self)@, text::texts(args@).skip(i as int)) matches Ok(next)
                    &&& final(self)@ == next.0
                    &&& n == next.1
                },
                Err(why) => {
                    &&& Self::took(old(self)@, text::texts(args@).skip(i as int)) matches Err(e)
                    &&& why@ == e
                },
            },
    ;
}

/// What it is once every argument was taken in.
pub open spec fn read_of<T: Options>(v: <T as View>::V, args: Seq<Seq<char>>) -> Result<
    <T as View>::V,
    Seq<char>,
>
    decreases args.len(),
{
    if args.len() == 0 {
        Ok(v)
    } else {
        match T::took(v, args) {
            Err(why) => Err(why),
            Ok((next, used)) => read_of::<T>(
                next,
                behind(
                    args,
                    if used < 1 {
                        1
                    } else {
                        used
                    },
                ),
            ),
        }
    }
}

/// Takes in every argument.
pub fn read<T: Options>(options: &mut T, args: &[String]) -> (r: Result<(), String>)
    ensures
        match r {
            Ok(_) => read_of::<T>(old(options)@, text::texts(args@)) == Ok::<
                <T as View>::V,
                Seq<char>,
            >(final(options)@),
            Err(why) => read_of::<T>(old(options)@, text::texts(args@)) == Err::<
                <T as View>::V,
                Seq<char>,
            >(why@),
        },
{
    let ghost all = text::texts(args@);
    let ghost start = options@;
    let size: usize = args.len();
    let mut i: usize = 0;
    assert(all.skip(0) =~= all);
    while i < size
        invariant
            size == args@.len(),
            i <= size,
            all == text::texts(args@),
            start == old(options)@,
            read_of::<T>(start, all) == read_of::<T>(options@, all.skip(i as int)),
        decreases size - i,
    {
        let ghost rest = all.skip(i as int);
        match options.take(args, i) {
            Err(why) => return Err(why),
            Ok(n) => {
                let used: usize = if n < 1 { 1 } else { n };
                if size - i <= used {
                    assert(behind(rest, used as int) =~= all.skip(size as int));
                    i = size;
                } else {
                    assert(behind(rest, used as int) =~= all.skip(i as int + used as int));
                    i = i + used;
                }
            },
        }
    }
    assert(all.skip(size as int).len() == 0);
    Ok(())
}

/// What stands behind an argument.
fn value(args: &[String], i: usize) -> (r: Option<&String>)
    requires
        i < args@.len(),
    ensures
        match r {
            Some(v) => value_of(text::texts(args@).skip(i as int)) == Some(v@),
            None => value_of(text::texts(args@).skip(i as int)) is None,
        },
{
    if args.len() - i > 1 {
        Some(&args[i + 1])
    } else {
        None
    }
}

/// A copy of what stands behind an argument.
fn text_behind(args: &[String], i: usize) -> (r: Option<String>)
    requires
        i < args@.len(),
    ensures
        fleet::held_text(r) == value_of(text::texts(args@).skip(i as int)),
{
    match value(args, i) {
        Some(v) => Some(v.clone()),
        None => None,
    }
}

fn find_number(args: &[String], i: usize, most: u64) -> (r: Option<u64>)
    requires
        i < args@.len(),
    ensures
        match r {
            Some(n) => number_behind(text::texts(args@).skip(i as int), most as nat) == Some(
                n as nat,
            ),
            None => number_behind(text::texts(args@).skip(i as int), most as nat) is None,
        },
{
    match value(args, i) {
        Some(v) => text::number(v.as_str(), most),
        None => None,
    }
}

fn unknown(arg: &str) -> (r: String)
    ensures
        r@ == unrecognised(arg@),
{
    let mut r = String::from_str("unrecognised argument: ");
    r.append(arg);
    r
}

// ---------------------------------------------------------------------------
// enrolling this device
// ---------------------------------------------------------------------------

/// What `cm init` is told.
pub struct Init {
    pub invite: Option<String>,
    pub root: Option<String>,
}

#[verifier::ext_equal]
pub struct InitView {
    pub invite: Option<Seq<char>>,
    pub root: Option<Seq<char>>,
}

impl View for Init {
    type V = InitView;

    open spec fn view(&self) -> InitView {
        InitView { invite: fleet::held_text(self.invite), root: fleet::held_text(self.root) }
    }
}

impl Options for Init {
    open spec fn took(v: InitView, args: Seq<Seq<char>>) -> Result<(InitView, int), Seq<char>> {
        if args[0] == "--parent"@ {
            Ok((InitView { invite: value_of(args), ..v }, 2))
        } else if args[0] == "--root"@ {
            Ok((InitView { root: value_of(args), ..v }, 2))
        } else {
            Err(unrecognised(args[0]))
        }
    }

    fn take(&mut self, args: &[String], i: usize) -> (r: Result<usize, String>) {
        let arg = args[i].as_str();
        assert(text::texts(args@).skip(i as int)[0] == args@[i as int]@);
        if text::same(arg, "--parent") {
            self.invite = text_behind(args, i);
            Ok(2)
        } else if text::same(arg, "--root") {
            self.root = text_behind(args, i);
            Ok(2)
        } else {
            Err(unknown(arg))
        }
    }
}

/// What `cm init` was told: an invite, and where the controller's files go.
pub open spec fn init_of(args: Seq<Seq<char>>) -> Result<(Seq<char>, Option<Seq<char>>), Seq<char>> {
    match read_of::<Init>(InitView { invite: None, root: None }, args) {
        Err(why) => Err(why),
        Ok(v) => match v.invite {
            Some(invite) => Ok((invite, v.root)),
            None => Err("--parent <invite> is required"@),
        },
    }
}

pub fn init(args: &[String]) -> (r: Result<(String, Option<String>), String>)
    ensures
        match r {
            Ok(pair) => init_of(text::texts(args@)) == Ok::<
                (Seq<char>, Option<Seq<char>>),
                Seq<char>,
            >((pair.0@, fleet::held_text(pair.1))),
            Err(why) => init_of(text::texts(args@)) == Err::<
                (Seq<char>, Option<Seq<char>>),
                Seq<char>,
            >(why@),
        },
{
    let mut told = Init { invite: None, root: None };
    if let Err(why) = read(&mut told, args) {
        return Err(why);
    }
    match told.invite {
        Some(invite) => Ok((invite, told.root)),
        None => Err("--parent <invite> is required".to_owned()),
    }
}

// ---------------------------------------------------------------------------
// offering a machine
// ---------------------------------------------------------------------------

/// The controller that is meant where none is named.
pub const CONTROLLER: &'static str = "cm-c";

/// What `cm worker` is told.
pub struct Offer {
    pub controller: String,
    pub capabilities: Vec<String>,
    /// Credits per minute while held.
    pub rate: u32,
    pub hygiene: Hygiene,
}

#[verifier::ext_equal]
pub struct OfferView {
    pub controller: Seq<char>,
    pub capabilities: Seq<Seq<char>>,
    pub rate: u32,
    pub pre: Option<Seq<char>>,
    pub post: Option<Seq<char>>,
}

impl View for Offer {
    type V = OfferView;

    open spec fn view(&self) -> OfferView {
        OfferView {
            controller: self.controller@,
            capabilities: text::texts(self.capabilities@),
            rate: self.rate,
            pre: fleet::held_text(self.hygiene.pre),
            post: fleet::held_text(self.hygiene.post),
        }
    }
}

impl OfferView {
    pub open spec fn default() -> OfferView {
        OfferView {
            controller: CONTROLLER@,
            capabilities: Seq::empty(),
            rate: 1,
            pre: None,
            post: None,
        }
    }
}

impl Default for Offer {
    fn default() -> (r: Self)
        ensures
            r@ == OfferView::default(),
    {
        let r = Offer {
            controller: CONTROLLER.to_owned(),
            capabilities: Vec::new(),
            rate: 1,
            hygiene: Hygiene { pre: None, post: None },
        };
        assert(r@ =~= OfferView::default());
        r
    }
}

/// A name that stands behind an argument, or the controller that is meant without one.
pub open spec fn controller_behind(args: Seq<Seq<char>>) -> Seq<char> {
    match value_of(args) {
        Some(v) => v,
        None => CONTROLLER@,
    }
}

fn find_controller(args: &[String], i: usize) -> (r: String)
    requires
        i < args@.len(),
    ensures
        r@ == controller_behind(text::texts(args@).skip(i as int)),
{
    match value(args, i) {
        Some(v) => v.clone(),
        None => CONTROLLER.to_owned(),
    }
}

impl Options for Offer {
    open spec fn took(v: OfferView, args: Seq<Seq<char>>) -> Result<(OfferView, int), Seq<char>> {
        if args[0] == "--pre"@ {
            Ok((OfferView { pre: value_of(args), ..v }, 2))
        } else if args[0] == "--post"@ {
            Ok((OfferView { post: value_of(args), ..v }, 2))
        } else if args[0] == "--controller"@ {
            Ok((OfferView { controller: controller_behind(args), ..v }, 2))
        } else if args[0] == "--rate"@ {
            Ok(
                (
                    OfferView {
                        rate: match number_behind(args, u32::MAX as nat) {
                            Some(n) => n as u32,
                            None => 1,
                        },
                        ..v
                    },
                    2,
                ),
            )
        } else if args[0] == "--can"@ {
            Ok(
                (
                    match value_of(args) {
                        Some(cap) => OfferView { capabilities: v.capabilities.push(cap), ..v },
                        None => v,
                    },
                    2,
                ),
            )
        } else {
            Err(unrecognised(args[0]))
        }
    }

    fn take(&mut self, args: &[String], i: usize) -> (r: Result<usize, String>) {
        let arg = args[i].as_str();
        assert(text::texts(args@).skip(i as int)[0] == args@[i as int]@);
        if text::same(arg, "--pre") {
            self.hygiene.pre = text_behind(args, i);
        } else if text::same(arg, "--post") {
            self.hygiene.post = text_behind(args, i);
        } else if text::same(arg, "--controller") {
            self.controller = find_controller(args, i);
        } else if text::same(arg, "--rate") {
            self.rate = match find_number(args, i, u32::MAX as u64) {
                Some(n) => n as u32,
                None => 1,
            };
        } else if text::same(arg, "--can") {
            if let Some(cap) = text_behind(args, i) {
                text::note(&mut self.capabilities, cap);
            }
        } else {
            return Err(unknown(arg));
        }
        Ok(2)
    }
}

pub fn offer(args: &[String]) -> (r: Result<Offer, String>)
    ensures
        match r {
            Ok(o) => read_of::<Offer>(OfferView::default(), text::texts(args@)) == Ok::<
                OfferView,
                Seq<char>,
            >(o@),
            Err(why) => read_of::<Offer>(OfferView::default(), text::texts(args@)) == Err::<
                OfferView,
                Seq<char>,
            >(why@),
        },
{
    let mut told = Offer::default();
    match read(&mut told, args) {
        Ok(_) => Ok(told),
        Err(why) => Err(why),
    }
}

// ---------------------------------------------------------------------------
// testing a policy
// ---------------------------------------------------------------------------

/// What `cm policy-test` is told.
pub struct Rehearsal {
    pub dir: String,
    pub repeat: u32,
    pub only: Option<String>,
}

#[verifier::ext_equal]
pub struct RehearsalView {
    pub dir: Seq<char>,
    pub repeat: u32,
    pub only: Option<Seq<char>>,
}

impl View for Rehearsal {
    type V = RehearsalView;

    open spec fn view(&self) -> RehearsalView {
        RehearsalView { dir: self.dir@, repeat: self.repeat, only: fleet::held_text(self.only) }
    }
}

impl RehearsalView {
    pub open spec fn default() -> RehearsalView {
        RehearsalView { dir: "."@, repeat: 1, only: None }
    }
}

impl Options for Rehearsal {
    open spec fn took(v: RehearsalView, args: Seq<Seq<char>>) -> Result<
        (RehearsalView, int),
        Seq<char>,
    > {
        if args[0] == "--repeat"@ {
            Ok(
                (
                    RehearsalView {
                        repeat: match number_behind(args, u32::MAX as nat) {
                            Some(n) => n as u32,
                            None => 1,
                        },
                        ..v
                    },
                    2,
                ),
            )
        } else if args[0] == "--only"@ {
            Ok((RehearsalView { only: value_of(args), ..v }, 2))
        } else if text::begins(args[0], "--"@) {
            Err(unrecognised(args[0]))
        } else {
            Ok((RehearsalView { dir: args[0], ..v }, 1))
        }
    }

    fn take(&mut self, args: &[String], i: usize) -> (r: Result<usize, String>) {
        let arg = args[i].as_str();
        assert(text::texts(args@).skip(i as int)[0] == args@[i as int]@);
        if text::same(arg, "--repeat") {
            self.repeat = match find_number(args, i, u32::MAX as u64) {
                Some(n) => n as u32,
                None => 1,
            };
            Ok(2)
        } else if text::same(arg, "--only") {
            self.only = text_behind(args, i);
            Ok(2)
        } else if text::starts_with(arg, "--") {
            Err(unknown(arg))
        } else {
            self.dir = arg.to_owned();
            Ok(1)
        }
    }
}

pub fn policy_test(args: &[String]) -> (r: Result<Rehearsal, String>)
    ensures
        match r {
            Ok(o) => read_of::<Rehearsal>(RehearsalView::default(), text::texts(args@)) == Ok::<
                RehearsalView,
                Seq<char>,
            >(o@),
            Err(why) => read_of::<Rehearsal>(RehearsalView::default(), text::texts(args@))
                == Err::<RehearsalView, Seq<char>>(why@),
        },
{
    let mut told = Rehearsal { dir: ".".to_owned(), repeat: 1, only: None };
    match read(&mut told, args) {
        Ok(_) => Ok(told),
        Err(why) => Err(why),
    }
}

// ---------------------------------------------------------------------------
// admins, tenants, and looking inside
// ---------------------------------------------------------------------------

/// What `cm admin add` is told besides a name and a key.
pub struct Remark {
    pub note: Option<String>,
}

impl View for Remark {
    type V = Option<Seq<char>>;

    open spec fn view(&self) -> Option<Seq<char>> {
        fleet::held_text(self.note)
    }
}

impl Options for Remark {
    open spec fn took(v: Option<Seq<char>>, args: Seq<Seq<char>>) -> Result<
        (Option<Seq<char>>, int),
        Seq<char>,
    > {
        if args[0] == "--note"@ {
            Ok((value_of(args), 2))
        } else {
            Err(unrecognised(args[0]))
        }
    }

    fn take(&mut self, args: &[String], i: usize) -> (r: Result<usize, String>) {
        let arg = args[i].as_str();
        assert(text::texts(args@).skip(i as int)[0] == args@[i as int]@);
        if text::same(arg, "--note") {
            self.note = text_behind(args, i);
            Ok(2)
        } else {
            Err(unknown(arg))
        }
    }
}

pub fn remark(args: &[String]) -> (r: Result<Option<String>, String>)
    ensures
        match r {
            Ok(note) => read_of::<Remark>(None, text::texts(args@)) == Ok::<
                Option<Seq<char>>,
                Seq<char>,
            >(fleet::held_text(note)),
            Err(why) => read_of::<Remark>(None, text::texts(args@)) == Err::<
                Option<Seq<char>>,
                Seq<char>,
            >(why@),
        },
{
    let mut told = Remark { note: None };
    match read(&mut told, args) {
        Ok(_) => Ok(told.note),
        Err(why) => Err(why),
    }
}

/// Which controller is looked into.
pub struct Whose {
    pub controller: String,
}

impl View for Whose {
    type V = Seq<char>;

    open spec fn view(&self) -> Seq<char> {
        self.controller@
    }
}

impl Options for Whose {
    open spec fn took(v: Seq<char>, args: Seq<Seq<char>>) -> Result<(Seq<char>, int), Seq<char>> {
        if args[0] == "--controller"@ {
            Ok((controller_behind(args), 2))
        } else {
            Err(unrecognised(args[0]))
        }
    }

    fn take(&mut self, args: &[String], i: usize) -> (r: Result<usize, String>) {
        let arg = args[i].as_str();
        assert(text::texts(args@).skip(i as int)[0] == args@[i as int]@);
        if text::same(arg, "--controller") {
            self.controller = find_controller(args, i);
            Ok(2)
        } else {
            Err(unknown(arg))
        }
    }
}

pub fn whose(args: &[String]) -> (r: Result<String, String>)
    ensures
        match r {
            Ok(name) => read_of::<Whose>(CONTROLLER@, text::texts(args@)) == Ok::<
                Seq<char>,
                Seq<char>,
            >(name@),
            Err(why) => read_of::<Whose>(CONTROLLER@, text::texts(args@)) == Err::<
                Seq<char>,
                Seq<char>,
            >(why@),
        },
{
    let mut told = Whose { controller: CONTROLLER.to_owned() };
    match read(&mut told, args) {
        Ok(_) => Ok(told.controller),
        Err(why) => Err(why),
    }
}

/// A number that was typed, where it fits.
pub open spec fn typed(args: Seq<Seq<char>>) -> Option<u64> {
    match number_behind(args, u64::MAX as nat) {
        Some(n) => Some(n as u64),
        None => None,
    }
}

impl Options for Terms {
    open spec fn took(v: TermsView, args: Seq<Seq<char>>) -> Result<(TermsView, int), Seq<char>> {
        if args[0] == "--credits"@ {
            Ok((TermsView { credits: typed(args), ..v }, 2))
        } else if args[0] == "--window"@ {
            Ok((TermsView { window: typed(args), ..v }, 2))
        } else if args[0] == "--ceiling"@ {
            match number_behind(args, u32::MAX as nat) {
                Some(n) => Ok((TermsView { ceiling: n as u32, ..v }, 2)),
                None => Err("--ceiling wants a number"@),
            }
        } else if args[0] == "--admin"@ {
            match value_of(args) {
                Some(who) => Ok((TermsView { admins: v.admins.push(who), ..v }, 2)),
                None => Err("--admin wants a caller alias"@),
            }
        } else if args[0] == "--member"@ {
            match value_of(args) {
                Some(who) => Ok((TermsView { members: v.members.push(who), ..v }, 2)),
                None => Err("--member wants a caller alias"@),
            }
        } else if args[0] == "--note"@ {
            Ok((TermsView { note: value_of(args), ..v }, 2))
        } else {
            Err(unrecognised(args[0]))
        }
    }

    fn take(&mut self, args: &[String], i: usize) -> (r: Result<usize, String>) {
        let arg = args[i].as_str();
        assert(text::texts(args@).skip(i as int)[0] == args@[i as int]@);
        if text::same(arg, "--credits") {
            self.credits = find_number(args, i, u64::MAX);
        } else if text::same(arg, "--window") {
            self.window = find_number(args, i, u64::MAX);
        } else if text::same(arg, "--ceiling") {
            match find_number(args, i, u32::MAX as u64) {
                Some(n) => self.ceiling = n as u32,
                None => return Err("--ceiling wants a number".to_owned()),
            }
        } else if text::same(arg, "--admin") {
            match text_behind(args, i) {
                Some(who) => text::note(&mut self.admins, who),
                None => return Err("--admin wants a caller alias".to_owned()),
            }
        } else if text::same(arg, "--member") {
            match text_behind(args, i) {
                Some(who) => text::note(&mut self.members, who),
                None => return Err("--member wants a caller alias".to_owned()),
            }
        } else if text::same(arg, "--note") {
            self.note = text_behind(args, i);
        } else {
            return Err(unknown(arg));
        }
        Ok(2)
    }
}

/// What `cm tenant add` is told of a tenant.
pub fn terms(args: &[String]) -> (r: Result<Terms, String>)
    ensures
        match r {
            Ok(t) => read_of::<Terms>(TermsView::default(), text::texts(args@)) == Ok::<
                TermsView,
                Seq<char>,
            >(t@),
            Err(why) => read_of::<Terms>(TermsView::default(), text::texts(args@)) == Err::<
                TermsView,
                Seq<char>,
            >(why@),
        },
{
    let mut told = Terms::default();
    match read(&mut told, args) {
        Ok(_) => Ok(told),
        Err(why) => Err(why),
    }
}

// ---------------------------------------------------------------------------
// asking for machines
// ---------------------------------------------------------------------------

/// One complete errand: ask, use what is given, give it back.
pub struct Errand {
    pub nivedana: Nivedana,
    pub job: Job,
    pub artifacts_dir: String,
    /// Keep the grant and walk away.
    pub abandon: bool,
    /// Ask what would happen, run nothing, hold nothing.
    pub rehearsing: bool,
    pub repo: Option<String>,
    pub git_ref: Option<String>,
    pub dir: Option<String>,
    pub setup: Option<String>,
}

#[verifier::ext_equal]
pub struct ErrandView {
    pub count: Option<u32>,
    pub capabilities: Seq<Seq<char>>,
    pub said: Map<Seq<char>, Seq<char>>,
    pub command: Seq<char>,
    pub workspace: Option<WorkspaceView>,
    pub cwd: Option<Seq<char>>,
    pub env: Seq<(Seq<char>, Seq<char>)>,
    pub collect: Seq<Seq<char>>,
    pub artifacts_dir: Seq<char>,
    pub abandon: bool,
    pub rehearsing: bool,
    pub repo: Option<Seq<char>>,
    pub git_ref: Option<Seq<char>>,
    pub dir: Option<Seq<char>>,
    pub setup: Option<Seq<char>>,
}

impl View for Errand {
    type V = ErrandView;

    open spec fn view(&self) -> ErrandView {
        ErrandView {
            count: self.nivedana.count,
            capabilities: text::texts(self.nivedana.capabilities@),
            said: self.nivedana.said.dict(),
            command: self.job.command@,
            workspace: tester::workspace_view(self.job.workspace),
            cwd: fleet::held_text(self.job.cwd),
            env: tester::pairs(self.job.env@),
            collect: text::texts(self.job.collect@),
            artifacts_dir: self.artifacts_dir@,
            abandon: self.abandon,
            rehearsing: self.rehearsing,
            repo: fleet::held_text(self.repo),
            git_ref: fleet::held_text(self.git_ref),
            dir: fleet::held_text(self.dir),
            setup: fleet::held_text(self.setup),
        }
    }
}

/// Where files go that come back, where nobody says.
pub const ARTIFACTS: &'static str = "cm-artifacts";

impl ErrandView {
    /// An errand about which nothing was said but this.
    pub open spec fn saying(said: Map<Seq<char>, Seq<char>>) -> ErrandView {
        ErrandView {
            count: None,
            capabilities: Seq::empty(),
            said,
            command: "echo hello"@,
            workspace: None,
            cwd: None,
            env: Seq::empty(),
            collect: Seq::empty(),
            artifacts_dir: ARTIFACTS@,
            abandon: false,
            rehearsing: false,
            repo: None,
            git_ref: None,
            dir: None,
            setup: None,
        }
    }
}

/// A pair of texts parted by the first `=`.
pub open spec fn pair_of(s: Seq<char>) -> Option<(Seq<char>, Seq<char>)> {
    let at = text::place_of(s, '=');
    if at < s.len() {
        Some((s.take(at), s.skip(at + 1)))
    } else {
        None
    }
}

/// What the caller's own words declare: a reason is just another key.
pub open spec fn with_reason(why: Option<Seq<char>>) -> Map<Seq<char>, Seq<char>> {
    match why {
        Some(w) => if text::trim_of(w).len() > 0 {
            Map::empty().insert("why"@, text::trim_of(w))
        } else {
            Map::empty()
        },
        None => Map::empty(),
    }
}

/// Declarations with those of a list of `key=value` added.
pub open spec fn with_pairs(said: Map<Seq<char>, Seq<char>>, parts: Seq<Seq<char>>) -> Map<
    Seq<char>,
    Seq<char>,
>
    decreases parts.len(),
{
    if parts.len() == 0 {
        said
    } else {
        let before = with_pairs(said, parts.drop_last());
        match pair_of(parts.last()) {
            Some(pair) => if text::trim_of(pair.0).len() > 0 {
                before.insert(text::trim_of(pair.0), text::trim_of(pair.1))
            } else {
                before
            },
            None => before,
        }
    }
}

/// What a caller declares before any argument is read: a reason, and what a CI job put into
/// the environment.
pub open spec fn declared(why: Option<Seq<char>>, say: Seq<char>) -> Map<Seq<char>, Seq<char>> {
    with_pairs(with_reason(why), text::pieces(say, ','))
}

fn declare(why: Option<&str>, say: &str) -> (r: Table<String>)
    ensures
        r.dict() == declared(
            match why {
                Some(w) => Some(w@),
                None => None,
            },
            say@,
        ),
{
    let mut said: Table<String> = Table::new();
    if let Some(w) = why {
        let w = text::trim(w);
        if !w.is_empty() {
            said.insert("why".to_owned(), w.to_owned());
        }
    }
    let ghost first = said.dict();
    let parts = text::split(say, ',');
    let ghost all = text::texts(parts@);
    for i in 0..parts.len()
        invariant
            all == text::texts(parts@),
            said.dict() == with_pairs(first, all.take(i as int)),
    {
        assert(all.take(i as int + 1).drop_last() =~= all.take(i as int));
        assert(all.take(i as int + 1).last() == parts@[i as int]@);
        if let Some((k, v)) = text::split_once(parts[i].as_str(), '=') {
            let k = text::trim(k);
            if !k.is_empty() {
                said.insert(k.to_owned(), text::trim(v).to_owned());
            }
        }
    }
    assert(all.take(all.len() as int) =~= all);
    said
}

/// An argument, or the two that one with a `=` in it stands for.
pub open spec fn halves(arg: Seq<char>) -> Seq<Seq<char>> {
    match pair_of(arg) {
        Some(pair) => if text::begins(pair.0, "--"@) {
            seq![pair.0, pair.1]
        } else {
            seq![arg]
        },
        None => seq![arg],
    }
}

/// Arguments in which `--k=v` is written as `--k v`: the same thing to a person.
pub open spec fn parted(args: Seq<Seq<char>>) -> Seq<Seq<char>>
    decreases args.len(),
{
    if args.len() == 0 {
        Seq::empty()
    } else {
        parted(args.drop_last()) + halves(args.last())
    }
}

pub fn part(args: &[String]) -> (r: Vec<String>)
    ensures
        text::texts(r@) == parted(text::texts(args@)),
{
    let ghost all = text::texts(args@);
    let mut r: Vec<String> = Vec::new();
    assert(text::texts(r@) =~= Seq::<Seq<char>>::empty());
    for i in 0..args.len()
        invariant
            all == text::texts(args@),
            text::texts(r@) == parted(all.take(i as int)),
    {
        let ghost before = text::texts(r@);
        assert(all.take(i as int + 1).drop_last() =~= all.take(i as int));
        assert(all.take(i as int + 1).last() == args@[i as int]@);
        let whole = args[i].as_str();
        let mut split = false;
        if let Some((k, v)) = text::split_once(whole, '=') {
            if text::starts_with(k, "--") {
                text::note(&mut r, k.to_owned());
                text::note(&mut r, v.to_owned());
                split = true;
                assert(text::texts(r@) =~= before + halves(whole@));
            }
        }
        if !split {
            text::note(&mut r, whole.to_owned());
            assert(text::texts(r@) =~= before + halves(whole@));
        }
    }
    assert(all.take(all.len() as int) =~= all);
    r
}

impl Options for Errand {
    open spec fn took(v: ErrandView, args: Seq<Seq<char>>) -> Result<(ErrandView, int), Seq<char>> {
        let next = value_of(args);
        if args[0] == "--repo"@ {
            Ok((ErrandView { repo: next, ..v }, 2))
        } else if args[0] == "--ref"@ {
            Ok((ErrandView { git_ref: next, ..v }, 2))
        } else if args[0] == "--dir"@ {
            Ok((ErrandView { dir: next, ..v }, 2))
        } else if args[0] == "--setup"@ {
            Ok((ErrandView { setup: next, ..v }, 2))
        } else if args[0] == "--cwd"@ {
            Ok((ErrandView { cwd: next, ..v }, 2))
        } else if args[0] == "--env"@ {
            Ok(
                (
                    match next {
                        Some(kv) => match pair_of(kv) {
                            Some(pair) => ErrandView { env: v.env.push(pair), ..v },
                            None => v,
                        },
                        None => v,
                    },
                    2,
                ),
            )
        } else if args[0] == "--collect"@ {
            Ok(
                (
                    match next {
                        Some(at) => ErrandView { collect: v.collect.push(at), ..v },
                        None => v,
                    },
                    2,
                ),
            )
        } else if args[0] == "--artifacts"@ {
            Ok(
                (
                    ErrandView {
                        artifacts_dir: match next {
                            Some(at) => at,
                            None => ARTIFACTS@,
                        },
                        ..v
                    },
                    2,
                ),
            )
        } else if args[0] == "--dry-run"@ {
            Ok((ErrandView { rehearsing: true, ..v }, 1))
        } else if args[0] == "--abandon"@ {
            Ok((ErrandView { abandon: true, ..v }, 1))
        } else if args[0] == "--count"@ {
            Ok(
                (
                    ErrandView {
                        count: match number_behind(args, u32::MAX as nat) {
                            Some(n) => Some(n as u32),
                            None => None,
                        },
                        ..v
                    },
                    2,
                ),
            )
        } else if args[0] == "--need"@ {
            Ok(
                (
                    match next {
                        Some(cap) => ErrandView { capabilities: v.capabilities.push(cap), ..v },
                        None => v,
                    },
                    2,
                ),
            )
        } else if args[0] == "--run"@ {
            Ok(
                (
                    match next {
                        Some(cmd) => ErrandView { command: cmd, ..v },
                        None => v,
                    },
                    2,
                ),
            )
        } else if text::begins(args[0], "--"@) {
            let key = text::without_start(args[0], '-');
            match next {
                Some(value) => if text::begins(value, "--"@) {
                    Ok((ErrandView { said: v.said.insert(key, "true"@), ..v }, 1))
                } else {
                    Ok((ErrandView { said: v.said.insert(key, value), ..v }, 2))
                },
                None => Ok((ErrandView { said: v.said.insert(key, "true"@), ..v }, 1)),
            }
        } else {
            Err(unrecognised(args[0]))
        }
    }

    /// Anything that is not ours is the caller talking to their own policy: it travels as a
    /// key and a value, and what it is worth is written there.
    fn take(&mut self, args: &[String], i: usize) -> (r: Result<usize, String>) {
        let arg = args[i].as_str();
        assert(text::texts(args@).skip(i as int)[0] == args@[i as int]@);
        if text::same(arg, "--repo") {
            self.repo = text_behind(args, i);
        } else if text::same(arg, "--ref") {
            self.git_ref = text_behind(args, i);
        } else if text::same(arg, "--dir") {
            self.dir = text_behind(args, i);
        } else if text::same(arg, "--setup") {
            self.setup = text_behind(args, i);
        } else if text::same(arg, "--cwd") {
            self.job.cwd = text_behind(args, i);
        } else if text::same(arg, "--env") {
            if let Some(kv) = value(args, i) {
                if let Some((k, v)) = text::split_once(kv.as_str(), '=') {
                    let ghost before = self.job.env@;
                    let pair = (k.to_owned(), v.to_owned());
                    self.job.env.push(pair);
                    assert(tester::pairs(self.job.env@) =~= tester::pairs(before).push(
                        (pair.0@, pair.1@),
                    ));
                }
            }
        } else if text::same(arg, "--collect") {
            if let Some(at) = text_behind(args, i) {
                text::note(&mut self.job.collect, at);
            }
        } else if text::same(arg, "--artifacts") {
            self.artifacts_dir = match text_behind(args, i) {
                Some(at) => at,
                None => ARTIFACTS.to_owned(),
            };
        } else if text::same(arg, "--dry-run") {
            self.rehearsing = true;
            return Ok(1);
        } else if text::same(arg, "--abandon") {
            self.abandon = true;
            return Ok(1);
        } else if text::same(arg, "--count") {
            self.nivedana.count = match find_number(args, i, u32::MAX as u64) {
                Some(n) => Some(n as u32),
                None => None,
            };
        } else if text::same(arg, "--need") {
            if let Some(cap) = text_behind(args, i) {
                text::note(&mut self.nivedana.capabilities, cap);
            }
        } else if text::same(arg, "--run") {
            if let Some(cmd) = text_behind(args, i) {
                self.job.command = cmd;
            }
        } else if text::starts_with(arg, "--") {
            let key = text::strip_start(arg, '-').to_owned();
            match text_behind(args, i) {
                Some(v) => {
                    if text::starts_with(v.as_str(), "--") {
                        self.nivedana.said.insert(key, "true".to_owned());
                        return Ok(1);
                    }
                    self.nivedana.said.insert(key, v);
                },
                None => {
                    self.nivedana.said.insert(key, "true".to_owned());
                    return Ok(1);
                },
            }
        } else {
            return Err(unknown(arg));
        }
        Ok(2)
    }
}

/// An errand with the code that it fetches first. A ref is not optional: two shards of one
/// run could otherwise test two different commits, and nobody would be told.
pub open spec fn settled(v: ErrandView) -> Result<ErrandView, Seq<char>> {
    match v.repo {
        Some(repo) => match v.git_ref {
            Some(git_ref) => Ok(
                ErrandView {
                    workspace: Some(WorkspaceView { repo, git_ref, dir: v.dir, setup: v.setup }),
                    ..v
                },
            ),
            None => Err("--repo also needs --ref"@),
        },
        None => if v.git_ref is Some || v.dir is Some || v.setup is Some {
            Err("--ref, --dir and --setup only mean something with --repo"@)
        } else {
            Ok(v)
        },
    }
}

/// What `cm test` hears: a reason, what the environment declares, and arguments.
pub open spec fn heard(why: Option<Seq<char>>, say: Seq<char>, args: Seq<Seq<char>>) -> Result<
    ErrandView,
    Seq<char>,
> {
    read_of::<Errand>(ErrandView::saying(declared(why, say)), parted(args))
}

/// What it is then told to do.
pub open spec fn errand_of(why: Option<Seq<char>>, say: Seq<char>, args: Seq<Seq<char>>) -> Result<
    ErrandView,
    Seq<char>,
> {
    match heard(why, say, args) {
        Err(e) => Err(e),
        Ok(v) => settled(v),
    }
}

/// Hears an errand out. What it declares can be shown before the errand is settled.
pub fn hear(why: Option<&str>, say: &str, args: &[String]) -> (r: Result<Errand, String>)
    ensures
        ({
            let reason = match why {
                Some(w) => Some(w@),
                None => None,
            };
            match r {
                Ok(e) => heard(reason, say@, text::texts(args@)) == Ok::<ErrandView, Seq<char>>(e@),
                Err(e) => heard(reason, say@, text::texts(args@)) == Err::<ErrandView, Seq<char>>(
                    e@,
                ),
            }
        }),
{
    let mut told = Errand {
        nivedana: Nivedana { count: None, capabilities: Vec::new(), said: declare(why, say) },
        job: Job {
            command: "echo hello".to_owned(),
            workspace: None,
            cwd: None,
            env: Vec::new(),
            collect: Vec::new(),
        },
        artifacts_dir: ARTIFACTS.to_owned(),
        abandon: false,
        rehearsing: false,
        repo: None,
        git_ref: None,
        dir: None,
        setup: None,
    };
    assert(told@ =~= ErrandView::saying(told.nivedana.said.dict()));
    let parts = part(args);
    if let Err(e) = read(&mut told, parts.as_slice()) {
        return Err(e);
    }
    Ok(told)
}

impl Errand {
    /// Settles which code is fetched first, if any.
    pub fn settle(self) -> (r: Result<Errand, String>)
        ensures
            match r {
                Ok(e) => settled(self@) == Ok::<ErrandView, Seq<char>>(e@),
                Err(e) => settled(self@) == Err::<ErrandView, Seq<char>>(e@),
            },
    {
        let mut told = self;
        match (&told.repo, &told.git_ref) {
            (Some(repo), Some(git_ref)) => {
                let w = Workspace {
                    repo: repo.clone(),
                    git_ref: git_ref.clone(),
                    dir: tester::copied(&told.dir),
                    setup: tester::copied(&told.setup),
                };
                let ghost v = told@;
                told.job.workspace = Some(w);
                assert(told@ =~= settled(v)->Ok_0);
                Ok(told)
            },
            (Some(_), None) => Err("--repo also needs --ref".to_owned()),
            (None, git_ref) => {
                if git_ref.is_some() || told.dir.is_some() || told.setup.is_some() {
                    return Err(
                        "--ref, --dir and --setup only mean something with --repo".to_owned(),
                    );
                }
                Ok(told)
            },
        }
    }
}

pub fn errand(why: Option<&str>, say: &str, args: &[String]) -> (r: Result<Errand, String>)
    ensures
        ({
            let reason = match why {
                Some(w) => Some(w@),
                None => None,
            };
            match r {
                Ok(e) => errand_of(reason, say@, text::texts(args@)) == Ok::<
                    ErrandView,
                    Seq<char>,
                >(e@),
                Err(e) => errand_of(reason, say@, text::texts(args@)) == Err::<
                    ErrandView,
                    Seq<char>,
                >(e@),
            }
        }),
{
    match hear(why, say, args) {
        Ok(told) => told.settle(),
        Err(e) => Err(e),
    }
}

/// What is declared, for the caller to see: nobody here can tell a deliberate key from a typo.
pub open spec fn echo_of(rows: Seq<(Seq<char>, Seq<char>)>) -> Option<Seq<char>> {
    if rows.len() == 0 {
        None
    } else {
        Some(
            "declaring: "@ + text::joined(
                rows.map_values(|e: (Seq<char>, Seq<char>)| e.0 + "="@ + e.1),
                " "@,
            ),
        )
    }
}

pub fn echo(said: &Table<String>) -> (r: Option<String>)
    ensures
        match r {
            Some(s) => echo_of(said@) == Some(s@),
            None => echo_of(said@) is None,
        },
{
    let size: usize = said.len();
    if size == 0 {
        return None;
    }
    let mut each: Vec<String> = Vec::new();
    for i in 0..size
        invariant
            size == said@.len(),
            each@.len() == i,
            forall|k: int|
                0 <= k < i ==> (#[trigger] each@[k])@ == said@[k].0 + "="@ + said@[k].1,
    {
        let mut s = said.key_at(i).clone();
        s.append("=");
        s.append(said.value_at(i).as_str());
        each.push(s);
    }
    assert(text::texts(each@) =~= said@.map_values(
        |e: (Seq<char>, Seq<char>)| e.0 + "="@ + e.1,
    ));
    let mut r = String::from_str("declaring: ");
    r.append(text::join(each.as_slice(), " ").as_str());
    Some(r)
}

// ---------------------------------------------------------------------------
// which command
// ---------------------------------------------------------------------------

/// What is to be done.
pub enum Command {
    Help,
    Init { rest: Vec<String> },
    Controller,
    TenantAdd { alias: String, rest: Vec<String> },
    TenantList,
    Whoami,
    AdminAdd { name: String, key: String, rest: Vec<String> },
    AdminList,
    Inspect { what: Look, rest: Vec<String> },
    Worker { rest: Vec<String> },
    PolicyTest { rest: Vec<String> },
    UploadPolicy { target: String, dir: String },
    Ping { target: String },
    Test { target: String, why: Option<String>, rest: Vec<String> },
}

#[verifier::ext_equal]
pub enum CommandView {
    Help,
    Init { rest: Seq<Seq<char>> },
    Controller,
    TenantAdd { alias: Seq<char>, rest: Seq<Seq<char>> },
    TenantList,
    Whoami,
    AdminAdd { name: Seq<char>, key: Seq<char>, rest: Seq<Seq<char>> },
    AdminList,
    Inspect { what: Look, rest: Seq<Seq<char>> },
    Worker { rest: Seq<Seq<char>> },
    PolicyTest { rest: Seq<Seq<char>> },
    UploadPolicy { target: Seq<char>, dir: Seq<char> },
    Ping { target: Seq<char> },
    Test { target: Seq<char>, why: Option<Seq<char>>, rest: Seq<Seq<char>> },
}

impl View for Command {
    type V = CommandView;

    open spec fn view(&self) -> CommandView {
        match *self {
            Command::Help => CommandView::Help,
            Command::Init { rest } => CommandView::Init { rest: text::texts(rest@) },
            Command::Controller => CommandView::Controller,
            Command::TenantAdd { alias, rest } => CommandView::TenantAdd {
                alias: alias@,
                rest: text::texts(rest@),
            },
            Command::TenantList => CommandView::TenantList,
            Command::Whoami => CommandView::Whoami,
            Command::AdminAdd { name, key, rest } => CommandView::AdminAdd {
                name: name@,
                key: key@,
                rest: text::texts(rest@),
            },
            Command::AdminList => CommandView::AdminList,
            Command::Inspect { what, rest } => CommandView::Inspect {
                what,
                rest: text::texts(rest@),
            },
            Command::Worker { rest } => CommandView::Worker { rest: text::texts(rest@) },
            Command::PolicyTest { rest } => CommandView::PolicyTest { rest: text::texts(rest@) },
            Command::UploadPolicy { target, dir } => CommandView::UploadPolicy {
                target: target@,
                dir: dir@,
            },
            Command::Ping { target } => CommandView::Ping { target: target@ },
            Command::Test { target, why, rest } => CommandView::Test {
                target: target@,
                why: fleet::held_text(why),
                rest: text::texts(rest@),
            },
        }
    }
}

/// What an operator asks to see, by its name.
pub open spec fn look_of(name: Seq<char>) -> Option<Look> {
    if name == "fleet"@ {
        Some(Look::Fleet)
    } else if name == "reservations"@ {
        Some(Look::Reservations)
    } else if name == "spend"@ {
        Some(Look::Spend)
    } else {
        None
    }
}

pub open spec fn is_help(arg: Seq<char>) -> bool {
    arg == "-h"@ || arg == "--help"@ || arg == "help"@
}

/// Which command some arguments are. A reason to `test` is optional: a leading flag is an
/// argument, not a reason.
pub open spec fn command_of(args: Seq<Seq<char>>) -> Result<CommandView, Seq<char>> {
    let none = Err("unrecognised command: "@ + text::joined(args, " "@));
    if args.len() == 0 || (args.len() == 1 && is_help(args[0])) {
        Ok(CommandView::Help)
    } else if args[0] == "init"@ {
        Ok(CommandView::Init { rest: args.skip(1) })
    } else if args[0] == "controller"@ {
        if args.len() == 1 {
            Ok(CommandView::Controller)
        } else {
            none
        }
    } else if args[0] == "tenant"@ {
        if args.len() >= 3 && args[1] == "add"@ {
            Ok(CommandView::TenantAdd { alias: args[2], rest: args.skip(3) })
        } else if args.len() == 2 && args[1] == "list"@ {
            Ok(CommandView::TenantList)
        } else {
            none
        }
    } else if args[0] == "whoami"@ {
        if args.len() == 1 {
            Ok(CommandView::Whoami)
        } else {
            none
        }
    } else if args[0] == "admin"@ {
        if args.len() >= 4 && args[1] == "add"@ {
            Ok(CommandView::AdminAdd { name: args[2], key: args[3], rest: args.skip(4) })
        } else if args.len() == 2 && args[1] == "list"@ {
            Ok(CommandView::AdminList)
        } else if args.len() >= 2 && look_of(args[1]) is Some {
            Ok(CommandView::Inspect { what: look_of(args[1])->0, rest: args.skip(2) })
        } else {
            none
        }
    } else if args[0] == "worker"@ {
        Ok(CommandView::Worker { rest: args.skip(1) })
    } else if args[0] == "policy-test"@ {
        Ok(CommandView::PolicyTest { rest: args.skip(1) })
    } else if args[0] == "upload-policy"@ && args.len() >= 2 {
        Ok(
            CommandView::UploadPolicy {
                target: args[1],
                dir: if args.len() > 2 {
                    args[2]
                } else {
                    "."@
                },
            },
        )
    } else if args[0] == "test"@ && args.len() >= 2 {
        if args.skip(2).contains("--ping"@) {
            Ok(CommandView::Ping { target: args[1] })
        } else if args.len() > 2 && !text::begins(args[2], "--"@) {
            Ok(CommandView::Test { target: args[1], why: Some(args[2]), rest: args.skip(3) })
        } else {
            Ok(CommandView::Test { target: args[1], why: None, rest: args.skip(2) })
        }
    } else {
        none
    }
}

/// The arguments from one on.
fn rest(args: &[String], from: usize) -> (r: Vec<String>)
    requires
        from <= args@.len(),
    ensures
        text::texts(r@) == text::texts(args@).skip(from as int),
{
    let mut r: Vec<String> = Vec::new();
    for i in from..args.len()
        invariant
            from <= i <= args@.len(),
            r@.len() == i - from,
            forall|k: int| 0 <= k < r@.len() ==> (#[trigger] r@[k])@ == args@[from + k]@,
    {
        r.push(args[i].clone());
    }
    assert(text::texts(r@) =~= text::texts(args@).skip(from as int));
    r
}

fn look(name: &str) -> (r: Option<Look>)
    ensures
        r == look_of(name@),
{
    if text::same(name, "fleet") {
        Some(Look::Fleet)
    } else if text::same(name, "reservations") {
        Some(Look::Reservations)
    } else if text::same(name, "spend") {
        Some(Look::Spend)
    } else {
        None
    }
}

/// Which command some arguments are.
pub fn command(args: &[String]) -> (r: Result<Command, String>)
    ensures
        match r {
            Ok(c) => command_of(text::texts(args@)) == Ok::<CommandView, Seq<char>>(c@),
            Err(why) => command_of(text::texts(args@)) == Err::<CommandView, Seq<char>>(why@),
        },
{
    let many: usize = args.len();
    let ghost all = text::texts(args@);
    assert(forall|i: int| 0 <= i < all.len() ==> all[i] == args@[i]@);
    if many == 0 {
        return Ok(Command::Help);
    }
    let first = args[0].as_str();
    if many == 1 && (text::same(first, "-h") || text::same(first, "--help") || text::same(
        first,
        "help",
    )) {
        return Ok(Command::Help);
    }
    if text::same(first, "init") {
        return Ok(Command::Init { rest: rest(args, 1) });
    } else if text::same(first, "controller") {
        if many == 1 {
            return Ok(Command::Controller);
        }
    } else if text::same(first, "tenant") {
        if many >= 3 && text::same(args[1].as_str(), "add") {
            return Ok(Command::TenantAdd { alias: args[2].clone(), rest: rest(args, 3) });
        }
        if many == 2 && text::same(args[1].as_str(), "list") {
            return Ok(Command::TenantList);
        }
    } else if text::same(first, "whoami") {
        if many == 1 {
            return Ok(Command::Whoami);
        }
    } else if text::same(first, "admin") {
        if many >= 4 && text::same(args[1].as_str(), "add") {
            return Ok(
                Command::AdminAdd {
                    name: args[2].clone(),
                    key: args[3].clone(),
                    rest: rest(args, 4),
                },
            );
        }
        if many == 2 && text::same(args[1].as_str(), "list") {
            return Ok(Command::AdminList);
        }
        if many >= 2 {
            if let Some(what) = look(args[1].as_str()) {
                return Ok(Command::Inspect { what, rest: rest(args, 2) });
            }
        }
    } else if text::same(first, "worker") {
        return Ok(Command::Worker { rest: rest(args, 1) });
    } else if text::same(first, "policy-test") {
        return Ok(Command::PolicyTest { rest: rest(args, 1) });
    } else if text::same(first, "upload-policy") && many >= 2 {
        let dir = if many > 2 {
            args[2].clone()
        } else {
            ".".to_owned()
        };
        return Ok(Command::UploadPolicy { target: args[1].clone(), dir });
    } else if text::same(first, "test") && many >= 2 {
        let behind = rest(args, 2);
        if text::listed(behind.as_slice(), "--ping") {
            return Ok(Command::Ping { target: args[1].clone() });
        }
        if many > 2 && !text::starts_with(args[2].as_str(), "--") {
            return Ok(
                Command::Test {
                    target: args[1].clone(),
                    why: Some(args[2].clone()),
                    rest: rest(args, 3),
                },
            );
        }
        return Ok(Command::Test { target: args[1].clone(), why: None, rest: behind });
    }
    let mut why = String::from_str("unrecognised command: ");
    why.append(text::join(args, " ").as_str());
    Err(why)
}

// ---------------------------------------------------------------------------
// laws
// ---------------------------------------------------------------------------

proof fn lemma_parted_joins(a: Seq<Seq<char>>, b: Seq<Seq<char>>)
    ensures
        parted(a + b) == parted(a) + parted(b),
    decreases b.len(),
{
    if b.len() == 0 {
        assert(a + b =~= a);
        assert(parted(a) + parted(b) =~= parted(a));
    } else {
        lemma_parted_joins(a, b.drop_last());
        assert((a + b).drop_last() =~= a + b.drop_last());
        assert((a + b).last() == b.last());
        assert(parted(a + b) =~= parted(a) + parted(b));
    }
}

/// A key and its value may be joined or separated: `--k=v` means what `--k v` does, wherever
/// the value is not itself an option with a `=` in it.
pub proof fn law_a_key_may_be_joined_or_separated(
    why: Option<Seq<char>>,
    say: Seq<char>,
    before: Seq<Seq<char>>,
    key: Seq<char>,
    value: Seq<char>,
    after: Seq<Seq<char>>,
)
    requires
        text::begins(key, "--"@),
        text::lacks(key, '='),
        halves(value) == seq![value],
    ensures
        errand_of(why, say, before + seq![key + seq!['='] + value] + after) == errand_of(
            why,
            say,
            before + seq![key, value] + after,
        ),
{
    let joined = key + seq!['='] + value;
    text::lemma_place_is(joined, '=', key.len() as int);
    assert(joined.take(key.len() as int) =~= key);
    assert(joined.skip(key.len() as int + 1) =~= value);
    text::lemma_place_is(key, '=', key.len() as int);
    assert(halves(joined) == seq![key, value]);
    assert(halves(key) == seq![key]);
    reveal_with_fuel(parted, 3);
    let one = seq![joined];
    let two = seq![key, value];
    assert(one.drop_last() =~= Seq::<Seq<char>>::empty());
    assert(parted(one) =~= seq![key, value]);
    assert(two.drop_last() =~= seq![key]);
    assert(seq![key].drop_last() =~= Seq::<Seq<char>>::empty());
    assert(parted(seq![key]) =~= seq![key]);
    assert(parted(two) =~= seq![key, value]);
    lemma_parted_joins(before, one);
    lemma_parted_joins(before + one, after);
    lemma_parted_joins(before, two);
    lemma_parted_joins(before + two, after);
}

/// Is this one of the arguments that are acted on here?
pub open spec fn ours(arg: Seq<char>) -> bool {
    ||| arg == "--repo"@
    ||| arg == "--ref"@
    ||| arg == "--dir"@
    ||| arg == "--setup"@
    ||| arg == "--cwd"@
    ||| arg == "--env"@
    ||| arg == "--collect"@
    ||| arg == "--artifacts"@
    ||| arg == "--dry-run"@
    ||| arg == "--abandon"@
    ||| arg == "--count"@
    ||| arg == "--need"@
    ||| arg == "--run"@
}

/// What is not ours is only declared: it changes nothing but what the caller says. And what
/// is ours is never taken for a declaration.
pub proof fn law_nothing_the_caller_says_is_read(v: ErrandView, args: Seq<Seq<char>>)
    requires
        args.len() > 0,
        <Errand as Options>::took(v, args) is Ok,
    ensures
        ({
            let next = <Errand as Options>::took(v, args)->Ok_0.0;
            &&& ours(args[0]) ==> next.said == v.said
            &&& !ours(args[0]) ==> next == (ErrandView { said: next.said, ..v })
        }),
{
}

proof fn lemma_option_words()
    ensures
        "--repo"@.len() == 6,
        "--repo"@[0] == '-',
        "--repo"@[1] == '-',
        "--repo"@[2] == 'r',
        "--repo"@[3] == 'e',
        "--ref"@.len() == 5,
        "--ref"@[0] == '-',
        "--ref"@[1] == '-',
        "--ref"@[2] == 'r',
        "--ref"@[3] == 'e',
        "--dir"@.len() == 5,
        "--dir"@[0] == '-',
        "--dir"@[1] == '-',
        "--dir"@[2] == 'd',
        "--dir"@[3] == 'i',
        "--setup"@.len() == 7,
        "--setup"@[0] == '-',
        "--setup"@[1] == '-',
        "--setup"@[2] == 's',
        "--setup"@[3] == 'e',
        "--cwd"@.len() == 5,
        "--cwd"@[0] == '-',
        "--cwd"@[1] == '-',
        "--cwd"@[2] == 'c',
        "--cwd"@[3] == 'w',
        "--env"@.len() == 5,
        "--env"@[0] == '-',
        "--env"@[1] == '-',
        "--env"@[2] == 'e',
        "--env"@[3] == 'n',
        "--collect"@.len() == 9,
        "--collect"@[0] == '-',
        "--collect"@[1] == '-',
        "--collect"@[2] == 'c',
        "--collect"@[3] == 'o',
        "--artifacts"@.len() == 11,
        "--artifacts"@[0] == '-',
        "--artifacts"@[1] == '-',
        "--artifacts"@[2] == 'a',
        "--artifacts"@[3] == 'r',
        "--dry-run"@.len() == 9,
        "--dry-run"@[0] == '-',
        "--dry-run"@[1] == '-',
        "--dry-run"@[2] == 'd',
        "--dry-run"@[3] == 'r',
        "--abandon"@.len() == 9,
        "--abandon"@[0] == '-',
        "--abandon"@[1] == '-',
        "--abandon"@[2] == 'a',
        "--abandon"@[3] == 'b',
        "--count"@.len() == 7,
        "--count"@[0] == '-',
        "--count"@[1] == '-',
        "--count"@[2] == 'c',
        "--count"@[3] == 'o',
        "--need"@.len() == 6,
        "--need"@[0] == '-',
        "--need"@[1] == '-',
        "--need"@[2] == 'n',
        "--need"@[3] == 'e',
        "--run"@.len() == 5,
        "--run"@[0] == '-',
        "--run"@[1] == '-',
        "--run"@[2] == 'r',
        "--run"@[3] == 'u',
        "--controller"@.len() == 12,
        "--controller"@[0] == '-',
        "--controller"@[1] == '-',
        "--controller"@[2] == 'c',
        "--controller"@[3] == 'o',
        "--can"@.len() == 5,
        "--can"@[0] == '-',
        "--can"@[1] == '-',
        "--can"@[2] == 'c',
        "--can"@[3] == 'a',
        "--rate"@.len() == 6,
        "--rate"@[0] == '-',
        "--rate"@[1] == '-',
        "--rate"@[2] == 'r',
        "--rate"@[3] == 'a',
        "--pre"@.len() == 5,
        "--pre"@[0] == '-',
        "--pre"@[1] == '-',
        "--pre"@[2] == 'p',
        "--pre"@[3] == 'r',
        "--post"@.len() == 6,
        "--post"@[0] == '-',
        "--post"@[1] == '-',
        "--post"@[2] == 'p',
        "--post"@[3] == 'o',
        "--ceiling"@.len() == 9,
        "--ceiling"@[0] == '-',
        "--ceiling"@[1] == '-',
        "--ceiling"@[2] == 'c',
        "--ceiling"@[3] == 'e',
        "--credits"@.len() == 9,
        "--credits"@[0] == '-',
        "--credits"@[1] == '-',
        "--credits"@[2] == 'c',
        "--credits"@[3] == 'r',
        "--window"@.len() == 8,
        "--window"@[0] == '-',
        "--window"@[1] == '-',
        "--window"@[2] == 'w',
        "--window"@[3] == 'i',
        "--member"@.len() == 8,
        "--member"@[0] == '-',
        "--member"@[1] == '-',
        "--member"@[2] == 'm',
        "--member"@[3] == 'e',
        "--admin"@.len() == 7,
        "--admin"@[0] == '-',
        "--admin"@[1] == '-',
        "--admin"@[2] == 'a',
        "--admin"@[3] == 'd',
        "--note"@.len() == 6,
        "--note"@[0] == '-',
        "--note"@[1] == '-',
        "--note"@[2] == 'n',
        "--note"@[3] == 'o',
        "--parent"@.len() == 8,
        "--parent"@[0] == '-',
        "--parent"@[1] == '-',
        "--parent"@[2] == 'p',
        "--parent"@[3] == 'a',
        "--root"@.len() == 6,
        "--root"@[0] == '-',
        "--root"@[1] == '-',
        "--root"@[2] == 'r',
        "--root"@[3] == 'o',
        "--repeat"@.len() == 8,
        "--repeat"@[0] == '-',
        "--repeat"@[1] == '-',
        "--repeat"@[2] == 'r',
        "--repeat"@[3] == 'e',
        "--only"@.len() == 6,
        "--only"@[0] == '-',
        "--only"@[1] == '-',
        "--only"@[2] == 'o',
        "--only"@[3] == 'n',
{
    reveal_strlit("--repo");
    reveal_strlit("--ref");
    reveal_strlit("--dir");
    reveal_strlit("--setup");
    reveal_strlit("--cwd");
    reveal_strlit("--env");
    reveal_strlit("--collect");
    reveal_strlit("--artifacts");
    reveal_strlit("--dry-run");
    reveal_strlit("--abandon");
    reveal_strlit("--count");
    reveal_strlit("--need");
    reveal_strlit("--run");
    reveal_strlit("--controller");
    reveal_strlit("--can");
    reveal_strlit("--rate");
    reveal_strlit("--pre");
    reveal_strlit("--post");
    reveal_strlit("--ceiling");
    reveal_strlit("--credits");
    reveal_strlit("--window");
    reveal_strlit("--member");
    reveal_strlit("--admin");
    reveal_strlit("--note");
    reveal_strlit("--parent");
    reveal_strlit("--root");
    reveal_strlit("--repeat");
    reveal_strlit("--only");
}

/// Every option of an errand sets what it names, to what stands behind it, and uses both up.
pub proof fn law_every_option_of_an_errand_sets_what_it_names(
    v: ErrandView,
    args: Seq<Seq<char>>,
    n: u32,
)
    requires
        args.len() > 1,
    ensures
        ({
            let next = <Errand as Options>::took(v, args);
            let value = args[1];
            &&& args[0] == "--repo"@ ==> next == Ok::<(ErrandView, int), Seq<char>>(
                (ErrandView { repo: Some(value), ..v }, 2),
            )
            &&& args[0] == "--ref"@ ==> next == Ok::<(ErrandView, int), Seq<char>>(
                (ErrandView { git_ref: Some(value), ..v }, 2),
            )
            &&& args[0] == "--dir"@ ==> next == Ok::<(ErrandView, int), Seq<char>>(
                (ErrandView { dir: Some(value), ..v }, 2),
            )
            &&& args[0] == "--setup"@ ==> next == Ok::<(ErrandView, int), Seq<char>>(
                (ErrandView { setup: Some(value), ..v }, 2),
            )
            &&& args[0] == "--cwd"@ ==> next == Ok::<(ErrandView, int), Seq<char>>(
                (ErrandView { cwd: Some(value), ..v }, 2),
            )
            &&& args[0] == "--run"@ ==> next == Ok::<(ErrandView, int), Seq<char>>(
                (ErrandView { command: value, ..v }, 2),
            )
            &&& args[0] == "--need"@ ==> next == Ok::<(ErrandView, int), Seq<char>>(
                (ErrandView { capabilities: v.capabilities.push(value), ..v }, 2),
            )
            &&& args[0] == "--collect"@ ==> next == Ok::<(ErrandView, int), Seq<char>>(
                (ErrandView { collect: v.collect.push(value), ..v }, 2),
            )
            &&& args[0] == "--artifacts"@ ==> next == Ok::<(ErrandView, int), Seq<char>>(
                (ErrandView { artifacts_dir: value, ..v }, 2),
            )
            &&& args[0] == "--count"@ && value == text::decimal_of(n as nat) ==> next == Ok::<
                (ErrandView, int),
                Seq<char>,
            >((ErrandView { count: Some(n), ..v }, 2))
            &&& args[0] == "--dry-run"@ ==> next == Ok::<(ErrandView, int), Seq<char>>(
                (ErrandView { rehearsing: true, ..v }, 1),
            )
            &&& args[0] == "--abandon"@ ==> next == Ok::<(ErrandView, int), Seq<char>>(
                (ErrandView { abandon: true, ..v }, 1),
            )
        }),
{
    lemma_option_words();
    lemma_number_reads_back(n);
}

proof fn lemma_number_reads_back(n: u32)
    ensures
        text::number_of(text::decimal_of(n as nat), u32::MAX as nat) == Some(n as nat),
        text::number_of(text::decimal_of(n as nat), u64::MAX as nat) == Some(n as nat),
{
    text::lemma_decimal_reads_back(n as nat);
}

/// A variable for the machines is parted at its first `=`.
pub proof fn law_a_variable_is_parted_at_its_first_equals(
    v: ErrandView,
    args: Seq<Seq<char>>,
    name: Seq<char>,
    value: Seq<char>,
)
    requires
        args.len() > 1,
        args[0] == "--env"@,
        args[1] == name + "="@ + value,
        text::lacks(name, '='),
    ensures
        <Errand as Options>::took(v, args) == Ok::<(ErrandView, int), Seq<char>>(
            (ErrandView { env: v.env.push((name, value)), ..v }, 2),
        ),
{
    lemma_option_words();
    lemma_pair_of(name, value);
}

proof fn lemma_pair_of(name: Seq<char>, value: Seq<char>)
    requires
        text::lacks(name, '='),
    ensures
        pair_of(name + "="@ + value) == Some((name, value)),
{
    reveal_strlit("=");
    let s = name + "="@ + value;
    let k = name.len() as int;
    assert forall|i: int| 0 <= i < k implies s[i] != '=' by {
        assert(s[i] == name[i]);
    }
    text::lemma_place_is(s, '=', k);
    assert(s.take(k) =~= name);
    assert(s.skip(k + 1) =~= value);
}

/// What is not ours is declared under its own name, with what stands behind it, or as true where
/// nothing does or another option.
pub proof fn law_anything_else_is_declared(v: ErrandView, key: Seq<char>, rest: Seq<Seq<char>>)
    requires
        key.len() > 0,
        key[0] != '-',
        !ours("--"@ + key),
    ensures
        rest.len() > 0 && !text::begins(rest[0], "--"@) ==> <Errand as Options>::took(
            v,
            seq!["--"@ + key] + rest,
        ) == Ok::<(ErrandView, int), Seq<char>>(
            (ErrandView { said: v.said.insert(key, rest[0]), ..v }, 2),
        ),
        rest.len() == 0 || text::begins(rest[0], "--"@) ==> <Errand as Options>::took(
            v,
            seq!["--"@ + key] + rest,
        ) == Ok::<(ErrandView, int), Seq<char>>(
            (ErrandView { said: v.said.insert(key, "true"@), ..v }, 1),
        ),
{
    reveal_strlit("--");
    let flag = "--"@ + key;
    let args = seq![flag] + rest;
    assert(args[0] == flag);
    assert(rest.len() > 0 ==> args[1] == rest[0]);
    assert(flag.take(2) =~= "--"@);
    assert(flag.drop_first().drop_first() =~= key);
    assert(flag.drop_first()[0] == '-');
    assert(text::without_start(key, '-') == key);
    assert(text::without_start(flag.drop_first(), '-') == key);
    assert(text::without_start(flag, '-') == key);
}

/// What is neither ours nor begins with two hyphens is refused, and nothing behind it is read.
pub proof fn law_a_stray_word_is_refused(v: ErrandView, word: Seq<char>, rest: Seq<Seq<char>>)
    requires
        !text::begins(word, "--"@),
    ensures
        read_of::<Errand>(v, seq![word] + rest) is Err,
{
    reveal_strlit("--");
    lemma_option_words();
    let args = seq![word] + rest;
    assert(args[0] == word);
    if ours(word) {
        assert(word.take(2) =~= "--"@);
    }
}

/// Arguments are taken in one after another: what the first of them comes to is what the rest
/// are added to.
pub proof fn law_arguments_add_up(
    v: ErrandView,
    next: ErrandView,
    key: Seq<char>,
    value: Seq<char>,
    rest: Seq<Seq<char>>,
)
    requires
        <Errand as Options>::took(v, seq![key, value] + rest) == Ok::<(ErrandView, int), Seq<char>>(
            (next, 2),
        ),
    ensures
        read_of::<Errand>(v, seq![key, value] + rest) == read_of::<Errand>(next, rest),
{
    let args = seq![key, value] + rest;
    assert(behind(args, 2) =~= rest);
}

/// Where nothing is said, one greeting is run on as many machines as the policy calls ordinary,
/// and what comes back goes into a folder of its own.
pub proof fn law_without_arguments_the_defaults_hold(say: Map<Seq<char>, Seq<char>>)
    ensures
        ({
            let v = ErrandView::saying(say);
            &&& v.count is None
            &&& v.capabilities.len() == 0
            &&& v.said == say
            &&& v.command == "echo hello"@
            &&& v.workspace is None
            &&& v.cwd is None
            &&& v.env.len() == 0
            &&& v.collect.len() == 0
            &&& v.artifacts_dir == "cm-artifacts"@
            &&& !v.abandon
            &&& !v.rehearsing
            &&& v.repo is None && v.git_ref is None && v.dir is None && v.setup is None
        }),
        ({
            let v = OfferView::default();
            &&& v.controller == "cm-c"@
            &&& v.capabilities.len() == 0
            &&& v.rate == 1
            &&& v.pre is None && v.post is None
        }),
        ({
            let v = RehearsalView::default();
            &&& v.dir == "."@
            &&& v.repeat == 1
            &&& v.only is None
        }),
{
}

/// Code is fetched exactly where a repository and a ref were named, and what only means
/// something with a repository is refused without one.
pub proof fn law_code_is_fetched_by_repository_and_ref(v: ErrandView)
    ensures
        settled(v) is Ok <==> (v.repo is Some && v.git_ref is Some) || (v.repo is None && v.git_ref
            is None && v.dir is None && v.setup is None),
        settled(v) matches Ok(e) ==> {
            &&& v.repo is None ==> e == v
            &&& v.repo is Some ==> (e.workspace matches Some(w) && w.repo == v.repo->0 && w.git_ref
                == v.git_ref->0 && w.dir == v.dir && w.setup == v.setup)
            &&& e == (ErrandView { workspace: e.workspace, ..v })
        },
{
}

/// A reason is declared as one, without the space around it, and nothing is where there is none;
/// what a build declared besides is declared too, the later of two values for one key.
pub proof fn law_a_reason_is_declared(
    why: Seq<char>,
    said: Map<Seq<char>, Seq<char>>,
    parts: Seq<Seq<char>>,
    key: Seq<char>,
    value: Seq<char>,
)
    requires
        text::lacks(key, '='),
    ensures
        with_reason(None) == Map::<Seq<char>, Seq<char>>::empty(),
        text::trim_of(why).len() == 0 ==> with_reason(Some(why)) == Map::<
            Seq<char>,
            Seq<char>,
        >::empty(),
        text::trim_of(why).len() > 0 ==> with_reason(Some(why)).dom() == set!["why"@]
            && with_reason(Some(why))["why"@] == text::trim_of(why),
        text::trim_of(key).len() > 0 ==> with_pairs(said, parts.push(key + "="@ + value))
            == with_pairs(said, parts).insert(text::trim_of(key), text::trim_of(value)),
        with_pairs(said, Seq::empty()) == said,
        with_pairs(said, parts.push(key)) == with_pairs(said, parts),
{
    if text::trim_of(why).len() > 0 {
        assert(with_reason(Some(why)).dom() =~= set!["why"@]);
    }
    let one = key + "="@ + value;
    lemma_pair_of(key, value);
    assert(parts.push(one).drop_last() =~= parts);
    assert(parts.push(key).drop_last() =~= parts);
    text::lemma_place_is(key, '=', key.len() as int);
}

/// A declaration is shown as it was made, every key with its value, and nothing is shown where
/// nothing was declared.
pub proof fn law_what_is_declared_is_shown(
    rows: Seq<(Seq<char>, Seq<char>)>,
    row: (Seq<char>, Seq<char>),
)
    ensures
        echo_of(Seq::empty()) is None,
        echo_of(seq![row]) == Some("declaring: "@ + (row.0 + "="@ + row.1)),
        rows.len() > 0 ==> echo_of(rows.push(row)) == Some(
            echo_of(rows)->0 + " "@ + (row.0 + "="@ + row.1),
        ),
{
    let show = |e: (Seq<char>, Seq<char>)| e.0 + "="@ + e.1;
    assert(seq![row].map_values(show) =~= seq![row.0 + "="@ + row.1]);
    if rows.len() > 0 {
        let shown = rows.map_values(show);
        assert(rows.push(row).map_values(show) =~= shown.push(row.0 + "="@ + row.1));
        let last = row.0 + "="@ + row.1;
        assert(shown.push(last).drop_last() =~= shown);
        assert("declaring: "@ + (text::joined(shown, " "@) + " "@ + last) =~= "declaring: "@
            + text::joined(shown, " "@) + " "@ + last);
    }
}

/// Every option of a machine that offers itself sets what it names.
pub proof fn law_every_option_of_an_offer_sets_what_it_names(
    v: OfferView,
    args: Seq<Seq<char>>,
    n: u32,
)
    requires
        args.len() > 1,
    ensures
        ({
            let next = <Offer as Options>::took(v, args);
            let value = args[1];
            &&& args[0] == "--controller"@ ==> next == Ok::<(OfferView, int), Seq<char>>(
                (OfferView { controller: value, ..v }, 2),
            )
            &&& args[0] == "--can"@ ==> next == Ok::<(OfferView, int), Seq<char>>(
                (OfferView { capabilities: v.capabilities.push(value), ..v }, 2),
            )
            &&& args[0] == "--rate"@ && value == text::decimal_of(n as nat) ==> next == Ok::<
                (OfferView, int),
                Seq<char>,
            >((OfferView { rate: n, ..v }, 2))
            &&& args[0] == "--pre"@ ==> next == Ok::<(OfferView, int), Seq<char>>(
                (OfferView { pre: Some(value), ..v }, 2),
            )
            &&& args[0] == "--post"@ ==> next == Ok::<(OfferView, int), Seq<char>>(
                (OfferView { post: Some(value), ..v }, 2),
            )
        }),
{
    lemma_option_words();
    lemma_number_reads_back(n);
}

/// Every option of a new tenant sets what it names, and one that wants a value is refused
/// without it.
pub proof fn law_every_option_of_a_tenant_sets_what_it_names(
    v: TermsView,
    args: Seq<Seq<char>>,
    n: u32,
)
    requires
        args.len() > 1,
    ensures
        ({
            let next = <Terms as Options>::took(v, args);
            let value = args[1];
            &&& args[0] == "--ceiling"@ && value == text::decimal_of(n as nat) ==> next == Ok::<
                (TermsView, int),
                Seq<char>,
            >((TermsView { ceiling: n, ..v }, 2))
            &&& args[0] == "--credits"@ && value == text::decimal_of(n as nat) ==> next == Ok::<
                (TermsView, int),
                Seq<char>,
            >((TermsView { credits: Some(n as u64), ..v }, 2))
            &&& args[0] == "--window"@ && value == text::decimal_of(n as nat) ==> next == Ok::<
                (TermsView, int),
                Seq<char>,
            >((TermsView { window: Some(n as u64), ..v }, 2))
            &&& args[0] == "--member"@ ==> next == Ok::<(TermsView, int), Seq<char>>(
                (TermsView { members: v.members.push(value), ..v }, 2),
            )
            &&& args[0] == "--admin"@ ==> next == Ok::<(TermsView, int), Seq<char>>(
                (TermsView { admins: v.admins.push(value), ..v }, 2),
            )
            &&& args[0] == "--note"@ ==> next == Ok::<(TermsView, int), Seq<char>>(
                (TermsView { note: Some(value), ..v }, 2),
            )
        }),
        <Terms as Options>::took(v, seq!["--ceiling"@]) is Err,
        <Terms as Options>::took(v, seq!["--member"@]) is Err,
        <Terms as Options>::took(v, seq!["--admin"@]) is Err,
{
    lemma_option_words();
    lemma_number_reads_back(n);
}

/// A folder is rehearsed as often as is said, and only the cases that are asked for.
pub proof fn law_every_option_of_a_policy_test_sets_what_it_names(
    v: RehearsalView,
    args: Seq<Seq<char>>,
    n: u32,
)
    requires
        args.len() > 1,
    ensures
        ({
            let next = <Rehearsal as Options>::took(v, args);
            let value = args[1];
            &&& args[0] == "--repeat"@ && value == text::decimal_of(n as nat) ==> next == Ok::<
                (RehearsalView, int),
                Seq<char>,
            >((RehearsalView { repeat: n, ..v }, 2))
            &&& args[0] == "--only"@ ==> next == Ok::<(RehearsalView, int), Seq<char>>(
                (RehearsalView { only: Some(value), ..v }, 2),
            )
            &&& !text::begins(args[0], "--"@) ==> next == Ok::<(RehearsalView, int), Seq<char>>(
                (RehearsalView { dir: args[0], ..v }, 1),
            )
        }),
{
    lemma_option_words();
    reveal_strlit("--");
    assert("--repeat"@.take(2) =~= "--"@);
    assert("--only"@.take(2) =~= "--"@);
    lemma_number_reads_back(n);
}

/// A device is set up with the invite of its parent, and never without one.
pub proof fn law_an_invite_is_required(invite: Seq<char>, root: Seq<char>)
    ensures
        init_of(Seq::empty()) is Err,
        init_of(seq!["--parent"@, invite]) == Ok::<(Seq<char>, Option<Seq<char>>), Seq<char>>(
            (invite, None),
        ),
        init_of(seq!["--parent"@, invite, "--root"@, root]) == Ok::<
            (Seq<char>, Option<Seq<char>>),
            Seq<char>,
        >((invite, Some(root))),
        init_of(seq!["--root"@, root]) is Err,
{
    lemma_option_words();
    reveal_with_fuel(read_of, 3);
    let a = seq!["--parent"@, invite];
    assert(behind(a, 2) =~= Seq::<Seq<char>>::empty());
    let b = seq!["--parent"@, invite, "--root"@, root];
    let c = seq!["--root"@, root];
    assert(behind(b, 2) =~= c);
    assert(behind(c, 2) =~= Seq::<Seq<char>>::empty());
}

/// Every command is the one it is called, with what stands behind it.
pub proof fn law_a_command_is_what_it_is_called(args: Seq<Seq<char>>, x: Seq<char>, y: Seq<char>)
    requires
        args.len() > 0,
    ensures
        command_of(Seq::empty()) == Ok::<CommandView, Seq<char>>(CommandView::Help),
        command_of(seq!["--help"@]) == Ok::<CommandView, Seq<char>>(CommandView::Help),
        command_of(seq!["-h"@]) == Ok::<CommandView, Seq<char>>(CommandView::Help),
        command_of(seq!["help"@]) == Ok::<CommandView, Seq<char>>(CommandView::Help),
        command_of(seq!["controller"@]) == Ok::<CommandView, Seq<char>>(CommandView::Controller),
        command_of(seq!["whoami"@]) == Ok::<CommandView, Seq<char>>(CommandView::Whoami),
        args[0] == "init"@ ==> command_of(args) == Ok::<CommandView, Seq<char>>(
            (CommandView::Init { rest: args.skip(1) }),
        ),
        args[0] == "worker"@ ==> command_of(args) == Ok::<CommandView, Seq<char>>(
            (CommandView::Worker { rest: args.skip(1) }),
        ),
        args[0] == "policy-test"@ ==> command_of(args) == Ok::<CommandView, Seq<char>>(
            (CommandView::PolicyTest { rest: args.skip(1) }),
        ),
        args.len() > 2 && args[0] == "tenant"@ && args[1] == "add"@ ==> command_of(args) == Ok::<
            CommandView,
            Seq<char>,
        >((CommandView::TenantAdd { alias: args[2], rest: args.skip(3) })),
        command_of(seq!["tenant"@, "list"@]) == Ok::<CommandView, Seq<char>>(
            CommandView::TenantList,
        ),
        args.len() > 3 && args[0] == "admin"@ && args[1] == "add"@ ==> command_of(args) == Ok::<
            CommandView,
            Seq<char>,
        >((CommandView::AdminAdd { name: args[2], key: args[3], rest: args.skip(4) })),
        command_of(seq!["admin"@, "list"@]) == Ok::<CommandView, Seq<char>>(CommandView::AdminList),
        command_of(seq!["upload-policy"@, x, y]) == Ok::<CommandView, Seq<char>>(
            (CommandView::UploadPolicy { target: x, dir: y }),
        ),
        command_of(seq!["upload-policy"@, x]) == Ok::<CommandView, Seq<char>>(
            (CommandView::UploadPolicy { target: x, dir: "."@ }),
        ),
{
    lemma_command_words();
}

proof fn lemma_command_words()
    ensures
        "--help"@.len() == 6,
        "-h"@.len() == 2,
        "help"@.len() == 4,
        "init"@.len() == 4,
        "help"@[0] == 'h',
        "init"@[0] == 'i',
        "controller"@.len() == 10,
        "tenant"@.len() == 6,
        "tenant"@[0] == 't',
        "--help"@[0] == '-',
        "whoami"@.len() == 6,
        "whoami"@[0] == 'w',
        "whoami"@[1] == 'h',
        "admin"@.len() == 5,
        "worker"@.len() == 6,
        "worker"@[0] == 'w',
        "worker"@[1] == 'o',
        "policy-test"@.len() == 11,
        "upload-policy"@.len() == 13,
        "test"@.len() == 4,
        "test"@[0] == 't',
        "add"@.len() == 3,
        "list"@.len() == 4,
        "fleet"@.len() == 5,
        "reservations"@.len() == 12,
        "spend"@.len() == 5,
        "fleet"@[0] == 'f',
        "spend"@[0] == 's',
{
    reveal_strlit("--help");
    reveal_strlit("-h");
    reveal_strlit("help");
    reveal_strlit("init");
    reveal_strlit("controller");
    reveal_strlit("tenant");
    reveal_strlit("whoami");
    reveal_strlit("admin");
    reveal_strlit("worker");
    reveal_strlit("policy-test");
    reveal_strlit("upload-policy");
    reveal_strlit("test");
    reveal_strlit("add");
    reveal_strlit("list");
    reveal_strlit("fleet");
    reveal_strlit("reservations");
    reveal_strlit("spend");
}

/// A controller is pinged where that is asked for; otherwise it is asked for machines, for the
/// reason that stands behind its name, where what stands there is no option.
pub proof fn law_a_test_asks_the_controller_it_names(args: Seq<Seq<char>>)
    requires
        args.len() > 1,
        args[0] == "test"@,
    ensures
        (exists|i: int| 2 <= i < args.len() && #[trigger] args[i] == "--ping"@) ==> command_of(args)
            == Ok::<CommandView, Seq<char>>((CommandView::Ping { target: args[1] })),
        !(exists|i: int| 2 <= i < args.len() && #[trigger] args[i] == "--ping"@) ==> command_of(
            args,
        ) == Ok::<CommandView, Seq<char>>(
            if args.len() > 2 && !text::begins(args[2], "--"@) {
                (CommandView::Test { target: args[1], why: Some(args[2]), rest: args.skip(3) })
            } else {
                (CommandView::Test { target: args[1], why: None, rest: args.skip(2) })
            },
        ),
{
    lemma_command_words();
    let rest = args.skip(2);
    if exists|i: int| 2 <= i < args.len() && #[trigger] args[i] == "--ping"@ {
        let i = choose|i: int| 2 <= i < args.len() && #[trigger] args[i] == "--ping"@;
        assert(rest[i - 2] == "--ping"@);
    }
    if rest.contains("--ping"@) {
        let k = rest.index_of("--ping"@);
        assert(args[k + 2] == "--ping"@);
    }
}

/// An operator is shown what it asks for by name.
pub proof fn law_an_operator_is_shown_what_it_asks_for(rest: Seq<Seq<char>>)
    ensures
        command_of(seq!["admin"@, "fleet"@] + rest) == Ok::<CommandView, Seq<char>>(
            (CommandView::Inspect { what: Look::Fleet, rest }),
        ),
        command_of(seq!["admin"@, "reservations"@] + rest) == Ok::<CommandView, Seq<char>>(
            (CommandView::Inspect { what: Look::Reservations, rest }),
        ),
        command_of(seq!["admin"@, "spend"@] + rest) == Ok::<CommandView, Seq<char>>(
            (CommandView::Inspect { what: Look::Spend, rest }),
        ),
{
    lemma_command_words();
    let a = seq!["admin"@, "fleet"@] + rest;
    let b = seq!["admin"@, "reservations"@] + rest;
    let c = seq!["admin"@, "spend"@] + rest;
    assert(a.skip(2) =~= rest);
    assert(b.skip(2) =~= rest);
    assert(c.skip(2) =~= rest);
    assert(a[0] == "admin"@ && a[1] == "fleet"@);
    assert(b[0] == "admin"@ && b[1] == "reservations"@);
    assert(c[0] == "admin"@ && c[1] == "spend"@);
}

} // verus!
