//! `policy.md`: an organisation's rules, in its own words.
//!
//! One file, in two halves. The fenced block is read here and settles what needs no
//! interpretation: who may ask at all, how long a grant lasts, and the limits that bound
//! any answer. Everything else is prose, and the prose is where the number comes from.

use vstd::prelude::*;
use vstd::string::*;

use crate::budget;
use crate::path;
use crate::proto::Nivedana;
use crate::text;

verus! {

pub const FILE: &'static str = "policy.md";

pub fn path_in(root: &str) -> (r: String)
    ensures
        r@ == path::join_of(root@, FILE@),
{
    path::join(root, FILE)
}

/// What ships when there is no policy yet. Small on purpose: rules, not prose.
pub const STARTER: &'static str = r#"# policy.md

Who may ask, and for how much. The fenced block below is read deterministically —
a caller outside `requesters` is refused before any model is consulted, and no
answer ever exceeds the limits set here. Everything after it is prose, and the prose
is what decides how many machines a request deserves.

```yaml
requesters:
  - everyone
standing_limit: 10
reservation_seconds: 600
```

## Standing budgets

Anyone may ask for up to the standing limit without justification. A grant is taken
back after `reservation_seconds` if nobody releases it — the backstop for a caller
that dies mid-run. Set it above your longest suite, or long runs will be cut off.

## Circumstantial override

If a request asserts a production incident and names an incident tracker URL,
allow up to 5x the standing limit for one hour, then re-evaluate.

For everything else, apply the standing budget.
"#;

/// What policy permits. It is not yet what the caller gets, which also depends on what is free.
#[derive(Debug, Clone)]
pub enum Ruling {
    Deny { rationale: String },
    /// The plea reached the prose, which is where the number comes from.
    Consider {
        /// What the caller asked for. An upper bound on the answer.
        wanted: u32,
        /// What this organisation calls an ordinary request. Calibration, and nothing else.
        standing: u32,
        /// The most any interpretation may grant. Never exceeded.
        ceiling: u32,
    },
}

#[derive(Debug, Clone)]
pub struct Policy {
    pub path: String,
    /// The whole file, prose included.
    pub text: String,
    pub grants: Grants,
}

#[derive(Debug, Clone)]
pub struct Grants {
    /// Aliases that may ask at all. `everyone` admits any authenticated caller.
    pub requesters: Vec<String>,
    /// What this organisation calls an ordinary request.
    pub standing_limit: u32,
    /// How long a grant survives unreleased.
    pub reservation_seconds: u64,
    /// The most the prose may grant. Absent means it cannot expand entitlement at all.
    pub max_limit: Option<u32>,
    /// Credits this tenant allows itself per rolling window.
    pub daily_budget: Option<u64>,
    /// Seconds the budget is counted over.
    pub budget_window: Option<u64>,
}

/// What the fenced block settles.
#[verifier::ext_equal]
pub struct GrantsView {
    pub requesters: Seq<Seq<char>>,
    pub standing_limit: u32,
    pub reservation_seconds: u64,
    pub max_limit: Option<u32>,
    pub daily_budget: Option<u64>,
    pub budget_window: Option<u64>,
}

impl View for Grants {
    type V = GrantsView;

    open spec fn view(&self) -> GrantsView {
        GrantsView {
            requesters: text::texts(self.requesters@),
            standing_limit: self.standing_limit,
            reservation_seconds: self.reservation_seconds,
            max_limit: self.max_limit,
            daily_budget: self.daily_budget,
            budget_window: self.budget_window,
        }
    }
}

impl GrantsView {
    /// What holds where nothing was written down.
    pub open spec fn default() -> GrantsView {
        GrantsView {
            requesters: seq!["everyone"@],
            standing_limit: 10,
            reservation_seconds: 600,
            max_limit: None,
            daily_budget: None,
            budget_window: None,
        }
    }

    pub open spec fn may_ask(self, asker: Seq<char>) -> bool {
        self.requesters.contains("everyone"@) || self.requesters.contains(asker)
    }

    /// The most any interpretation may grant. A maximum below the standing limit is no
    /// maximum.
    pub open spec fn ceiling(self) -> u32 {
        match self.max_limit {
            Some(most) => if most >= self.standing_limit {
                most
            } else {
                self.standing_limit
            },
            None => self.standing_limit,
        }
    }

    /// Credits, and the seconds they are counted over.
    pub open spec fn budget(self) -> Option<(u64, u64)> {
        match self.daily_budget {
            Some(credits) => Some(
                (
                    credits,
                    match self.budget_window {
                        Some(window) => window,
                        None => budget::WINDOW_SECS,
                    },
                ),
            ),
            None => None,
        }
    }
}

impl Default for Grants {
    fn default() -> (r: Self)
        ensures
            r@ == GrantsView::default(),
    {
        let mut requesters: Vec<String> = Vec::new();
        requesters.push("everyone".to_owned());
        let r = Grants {
            requesters,
            standing_limit: 10,
            reservation_seconds: 600,
            max_limit: None,
            daily_budget: None,
            budget_window: None,
        };
        assert(r@.requesters =~= seq!["everyone"@]);
        r
    }
}

// ---------------------------------------------------------------------------
// the fenced block
// ---------------------------------------------------------------------------

/// The text between the first fence that opens with `tag` and the fence that closes it,
/// and what stands behind that.
pub open spec fn fenced(s: Seq<char>, tag: Seq<char>) -> Option<(Seq<char>, Seq<char>)> {
    let open = "```"@ + tag;
    match text::find_from(s, open, 0) {
        Some(i) => {
            let rest = s.skip(i + open.len());
            match text::find_from(rest, "```"@, 0) {
                Some(j) => Some((rest.take(j), rest.skip(j + "```"@.len()))),
                None => None,
            }
        },
        None => None,
    }
}

/// The first block that is fenced with `tag`, and what stands behind it.
pub fn fenced_block<'a>(s: &'a str, tag: &str) -> (r: Option<(&'a str, &'a str)>)
    ensures
        match r {
            Some((block, behind)) => fenced(s@, tag@) == Some((block@, behind@)),
            None => fenced(s@, tag@) is None,
        },
{
    let mut open = String::from_str("```");
    open.append(tag);
    let i = match text::find(s, open.as_str()) {
        Some(i) => i,
        None => {
            return None;
        },
    };
    proof {
        text::lemma_find_from(s@, open@, 0);
    }
    let size = s.unicode_len();
    let rest = text::slice(s, i + open.as_str().unicode_len(), size);
    assert(rest@ =~= s@.skip(i + open@.len()));
    let j = match text::find(rest, "```") {
        Some(j) => j,
        None => {
            return None;
        },
    };
    proof {
        text::lemma_find_from(rest@, "```"@, 0);
    }
    let left = rest.unicode_len();
    let block = text::slice(rest, 0, j);
    let behind = text::slice(rest, j + "```".unicode_len(), left);
    assert(block@ =~= rest@.take(j as int));
    assert(behind@ =~= rest@.skip(j + "```"@.len()));
    Some((block, behind))
}

/// How far the block has been read: what it has settled, and whether the lines that follow
/// list requesters.
#[verifier::ext_equal]
pub struct Reading {
    pub grants: GrantsView,
    pub listing: bool,
}

/// What is said of a value that ought to be a number.
pub open spec fn not_a_number(
    key: Seq<char>,
    value: Seq<char>,
    of: Seq<char>,
    most: u64,
) -> Seq<char> {
    key + ": "@ + text::quoted_of(value) + " is not a number"@ + of + ": "@ + text::number_fault_of(
        value,
        most as nat,
    )
}

/// What a setting does.
pub open spec fn set(at: Reading, key: Seq<char>, value: Seq<char>) -> Result<
    Reading,
    Seq<char>,
> {
    let g = at.grants;
    if key == "requesters"@ {
        Ok(
            Reading {
                grants: if value.len() > 0 {
                    GrantsView { requesters: g.requesters.push(value), ..g }
                } else {
                    g
                },
                listing: true,
            },
        )
    } else if key == "standing_limit"@ {
        match text::number_of(value, u32::MAX as nat) {
            Some(n) => Ok(
                Reading { grants: GrantsView { standing_limit: n as u32, ..g }, listing: false },
            ),
            None => Err(not_a_number(key, value, ""@, u32::MAX as u64)),
        }
    } else if key == "daily_budget"@ {
        match text::number_of(value, u64::MAX as nat) {
            Some(n) => Ok(
                Reading {
                    grants: GrantsView { daily_budget: Some(n as u64), ..g },
                    listing: false,
                },
            ),
            None => Err(not_a_number(key, value, " of credits"@, u64::MAX)),
        }
    } else if key == "budget_window"@ {
        match text::number_of(value, u64::MAX as nat) {
            Some(n) => Ok(
                Reading {
                    grants: GrantsView { budget_window: Some(n as u64), ..g },
                    listing: false,
                },
            ),
            None => Err(not_a_number(key, value, " of seconds"@, u64::MAX)),
        }
    } else if key == "max_limit"@ {
        match text::number_of(value, u32::MAX as nat) {
            Some(n) => Ok(
                Reading { grants: GrantsView { max_limit: Some(n as u32), ..g }, listing: false },
            ),
            None => Err(not_a_number(key, value, ""@, u32::MAX as u64)),
        }
    } else if key == "reservation_seconds"@ {
        match text::number_of(value, u64::MAX as nat) {
            Some(n) => Ok(
                Reading {
                    grants: GrantsView { reservation_seconds: n as u64, ..g },
                    listing: false,
                },
            ),
            None => Err(not_a_number(key, value, ""@, u64::MAX)),
        }
    } else {
        Ok(Reading { grants: g, listing: false })
    }
}

/// Where a comment begins, from `i` on: at a `#` that begins the line or follows white space.
pub open spec fn comment_from(line: Seq<char>, i: int) -> int
    decreases line.len() - i,
{
    if i >= line.len() || (line[i] == '#' && (i == 0 || text::is_space(line[i - 1]))) {
        i
    } else {
        comment_from(line, i + 1)
    }
}

/// A line up to the comment in it.
pub open spec fn uncommented(line: Seq<char>) -> Seq<char> {
    line.take(comment_from(line, 0))
}

/// What one line of the block does, up to the comment in it: nothing, where that is empty;
/// another requester, where it is an item of their list; a setting otherwise.
pub open spec fn read_line(at: Reading, line: Seq<char>) -> Result<Reading, Seq<char>> {
    let t = text::trim_of(uncommented(line));
    let k = text::place_of(t, ':');
    if t.len() == 0 {
        Ok(at)
    } else if text::begins(t, "- "@) {
        if at.listing {
            let item = text::trim_of(t.skip("- "@.len() as int));
            Ok(
                Reading {
                    grants: GrantsView {
                        requesters: at.grants.requesters.push(item),
                        ..at.grants
                    },
                    ..at
                },
            )
        } else {
            Ok(at)
        }
    } else if k < t.len() {
        set(at, text::trim_of(t.take(k)), text::trim_of(t.skip(k + 1)))
    } else {
        Ok(Reading { listing: false, ..at })
    }
}

/// What the lines of the block come to, from nobody listed yet.
pub open spec fn read_lines(lines: Seq<Seq<char>>) -> Result<Reading, Seq<char>>
    decreases lines.len(),
{
    if lines.len() == 0 {
        Ok(
            Reading {
                grants: GrantsView { requesters: Seq::empty(), ..GrantsView::default() },
                listing: false,
            },
        )
    } else {
        match read_lines(lines.drop_last()) {
            Ok(at) => read_line(at, lines.last()),
            Err(why) => Err(why),
        }
    }
}

/// What is said of a second block: only the first would be read, and whoever wrote the
/// other would believe it in force.
pub const SECOND_BLOCK: &'static str = "there is a second yaml block, and only one is read";

/// What a policy's text settles. Without a block it settles nothing; a block that lists
/// nobody admits everyone.
pub open spec fn grants_of(s: Seq<char>) -> Result<GrantsView, Seq<char>> {
    match fenced(s, "yaml"@) {
        None => Ok(GrantsView::default()),
        Some((block, behind)) => if text::holds(behind, "```yaml"@) {
            Err(SECOND_BLOCK@)
        } else {
            match read_lines(text::lines_of(block)) {
                Err(why) => Err(why),
                Ok(at) => if at.grants.requesters.len() == 0 {
                    Ok(GrantsView { requesters: seq!["everyone"@], ..at.grants })
                } else {
                    Ok(at.grants)
                },
            }
        },
    }
}

proof fn lemma_comment_from(line: Seq<char>, i: int)
    requires
        0 <= i <= line.len(),
    ensures
        i <= comment_from(line, i) <= line.len(),
    decreases line.len() - i,
{
    if !(i >= line.len() || (line[i] == '#' && (i == 0 || text::is_space(line[i - 1])))) {
        lemma_comment_from(line, i + 1);
    }
}

/// A line up to the comment in it.
fn uncomment(line: &str) -> (r: &str)
    ensures
        r@ == uncommented(line@),
{
    let chars = text::chars_of(line);
    let mut i: usize = 0;
    while i < chars.len() && !(chars[i] == '#' && (i == 0 || text::space(chars[i - 1])))
        invariant
            chars@ == line@,
            i <= chars@.len(),
            comment_from(line@, 0) == comment_from(line@, i as int),
        decreases chars@.len() - i,
    {
        i = i + 1;
    }
    text::slice(line, 0, i)
}

fn read_number(key: &str, value: &str, of: &str, most: u64) -> (r: Result<u64, String>)
    ensures
        match r {
            Ok(n) => text::number_of(value@, most as nat) == Some(n as nat),
            Err(why) => text::number_of(value@, most as nat) is None && why@ == not_a_number(
                key@,
                value@,
                of@,
                most,
            ),
        },
{
    match text::number(value, most) {
        Some(n) => Ok(n),
        None => {
            let mut why = key.to_owned();
            why.append(": ");
            why.append(text::quoted(value).as_str());
            why.append(" is not a number");
            why.append(of);
            why.append(": ");
            why.append(text::number_fault(value, most).as_str());
            Err(why)
        },
    }
}

/// Does what was read say the same as this?
spec fn agrees(result: Result<bool, String>, grants: Grants, want: Result<Reading, Seq<char>>) -> bool {
    match result {
        Ok(listing) => want == Ok::<Reading, Seq<char>>(Reading { grants: grants@, listing }),
        Err(why) => want == Err::<Reading, Seq<char>>(why@),
    }
}

impl Grants {
    /// Applies one setting. Returns whether requesters may be listed behind it.
    fn set(&mut self, key: &str, value: &str, Ghost(listing): Ghost<bool>) -> (r: Result<bool, String>)
        ensures
            agrees(r, *final(self), set(Reading { grants: old(self)@, listing }, key@, value@)),
    {
        if text::same(key, "requesters") {
            if !value.is_empty() {
                let item = value.to_owned();
                assert(text::texts(self.requesters@.push(item)) =~= text::texts(
                    self.requesters@,
                ).push(item@));
                self.requesters.push(item);
            }
            return Ok(true);
        }
        if text::same(key, "standing_limit") {
            self.standing_limit = match read_number(key, value, "", u32::MAX as u64) {
                Ok(n) => n as u32,
                Err(why) => {
                    return Err(why);
                },
            };
        } else if text::same(key, "daily_budget") {
            self.daily_budget = match read_number(key, value, " of credits", u64::MAX) {
                Ok(n) => Some(n),
                Err(why) => {
                    return Err(why);
                },
            };
        } else if text::same(key, "budget_window") {
            self.budget_window = match read_number(key, value, " of seconds", u64::MAX) {
                Ok(n) => Some(n),
                Err(why) => {
                    return Err(why);
                },
            };
        } else if text::same(key, "max_limit") {
            self.max_limit = match read_number(key, value, "", u32::MAX as u64) {
                Ok(n) => Some(n as u32),
                Err(why) => {
                    return Err(why);
                },
            };
        } else if text::same(key, "reservation_seconds") {
            self.reservation_seconds = match read_number(key, value, "", u64::MAX) {
                Ok(n) => n,
                Err(why) => {
                    return Err(why);
                },
            };
        }
        Ok(false)
    }

    /// Reads one line of the block.
    fn read_line(&mut self, line: &str, listing: bool) -> (r: Result<bool, String>)
        ensures
            agrees(r, *final(self), read_line(Reading { grants: old(self)@, listing }, line@)),
    {
        let t = text::trim(uncomment(line));
        if t.is_empty() {
            return Ok(listing);
        }
        if let Some(rest) = text::strip_prefix(t, "- ") {
            if listing {
                let item = text::trim(rest).to_owned();
                assert(text::texts(self.requesters@.push(item)) =~= text::texts(
                    self.requesters@,
                ).push(item@));
                self.requesters.push(item);
            }
            return Ok(listing);
        }
        proof {
            text::lemma_place_of(t@, ':');
        }
        match text::split_once(t, ':') {
            Some((key, value)) => self.set(text::trim(key), text::trim(value), Ghost(listing)),
            None => Ok(false),
        }
    }
}

/// Reads what the fenced block settles.
pub fn parse_grants(s: &str) -> (r: Result<Grants, String>)
    ensures
        match r {
            Ok(grants) => grants_of(s@) == Ok::<GrantsView, Seq<char>>(grants@),
            Err(why) => grants_of(s@) == Err::<GrantsView, Seq<char>>(why@),
        },
{
    let (block, behind) = match fenced_block(s, "yaml") {
        Some(found) => found,
        None => {
            return Ok(Grants::default());
        },
    };
    if text::contains(behind, "```yaml") {
        return Err(SECOND_BLOCK.to_owned());
    }
    let lines = text::lines(block);
    let ghost all = text::lines_of(block@);
    let mut grants = Grants::default();
    grants.requesters = Vec::new();
    let mut listing = false;
    proof {
        assert(grants@ =~= GrantsView { requesters: Seq::empty(), ..GrantsView::default() });
    }
    let mut i: usize = 0;
    while i < lines.len()
        invariant
            i <= lines@.len(),
            text::texts(lines@) == all,
            fenced(s@, "yaml"@) == Some((block@, behind@)),
            !text::holds(behind@, "```yaml"@),
            all == text::lines_of(block@),
            read_lines(all.take(i as int)) == Ok::<Reading, Seq<char>>(
                Reading { grants: grants@, listing },
            ),
        decreases lines@.len() - i,
    {
        proof {
            assert(all.take(i as int + 1).drop_last() =~= all.take(i as int));
            assert(all.take(i as int + 1).last() == text::texts(lines@)[i as int]);
        }
        match grants.read_line(lines[i].as_str(), listing) {
            Ok(now) => {
                listing = now;
            },
            Err(why) => {
                proof {
                    lemma_error_stays(all, i as int + 1, why@);
                }
                return Err(why);
            },
        }
        i = i + 1;
    }
    assert(all.take(i as int) =~= all);
    if grants.requesters.is_empty() {
        grants.requesters.push("everyone".to_owned());
        assert(grants@.requesters =~= seq!["everyone"@]);
    }
    Ok(grants)
}

/// Once a line is wrong, so is the block.
proof fn lemma_error_stays(lines: Seq<Seq<char>>, k: int, why: Seq<char>)
    requires
        0 <= k <= lines.len(),
        read_lines(lines.take(k)) == Err::<Reading, Seq<char>>(why),
    ensures
        read_lines(lines) == Err::<Reading, Seq<char>>(why),
    decreases lines.len() - k,
{
    if k < lines.len() {
        assert(lines.take(k + 1).drop_last() =~= lines.take(k));
        lemma_error_stays(lines, k + 1, why);
    } else {
        assert(lines.take(k) =~= lines);
    }
}

// ---------------------------------------------------------------------------
// the policy
// ---------------------------------------------------------------------------

/// Does this ruling say what the grants permit?
pub open spec fn rules(ruling: Ruling, grants: GrantsView, asker: Seq<char>, count: Option<u32>) -> bool {
    if grants.may_ask(asker) {
        ruling == Ruling::Consider {
            wanted: match count {
                Some(n) => n,
                None => 1,
            },
            standing: grants.standing_limit,
            ceiling: grants.ceiling(),
        }
    } else {
        &&& ruling matches Ruling::Deny { rationale }
        &&& rationale@ == asker + " is not in the requesters list"@
    }
}

impl Policy {
    pub open spec fn granted(&self) -> GrantsView {
        self.grants@
    }

    /// A policy as it stands in a file.
    pub fn from_text(path: String, text: String) -> (r: Result<Self, String>)
        ensures
            match r {
                Ok(policy) => {
                    &&& policy.path@ == path@
                    &&& policy.text@ == text@
                    &&& grants_of(text@) == Ok::<GrantsView, Seq<char>>(policy.granted())
                },
                Err(why) => {
                    &&& grants_of(text@) is Err
                    &&& why@ == "reading the grants block in "@ + path@ + ": "@ + grants_of(
                        text@,
                    )->Err_0
                },
            },
    {
        match parse_grants(text.as_str()) {
            Ok(grants) => Ok(Policy { path, text, grants }),
            Err(inner) => {
                let mut why = String::from_str("reading the grants block in ");
                why.append(path.as_str());
                why.append(": ");
                why.append(inner.as_str());
                Err(why)
            },
        }
    }

    /// What the deterministic half says: refused, or for the prose to decide, inside what
    /// bounds.
    pub fn weigh(&self, asker: &str, nivedana: &Nivedana) -> (r: Ruling)
        ensures
            rules(r, self.granted(), asker@, nivedana.count),
    {
        if !self.may_ask(asker) {
            let mut rationale = asker.to_owned();
            rationale.append(" is not in the requesters list");
            return Ruling::Deny { rationale };
        }
        let (standing, ceiling) = self.bounds();
        Ruling::Consider {
            wanted: match nivedana.count {
                Some(n) => n,
                None => 1,
            },
            standing,
            ceiling,
        }
    }

    /// The standing limit, and the most any interpretation may grant.
    pub fn bounds(&self) -> (r: (u32, u32))
        ensures
            r == (self.granted().standing_limit, self.granted().ceiling()),
    {
        let standing = self.grants.standing_limit;
        let ceiling = match self.grants.max_limit {
            Some(most) => if most >= standing {
                most
            } else {
                standing
            },
            None => standing,
        };
        (standing, ceiling)
    }

    /// How long a grant survives unreleased.
    pub fn reservation_secs(&self) -> (r: u64)
        ensures
            r == self.granted().reservation_seconds,
    {
        self.grants.reservation_seconds
    }

    /// The tenant's own budget: credits, and the seconds they are counted over.
    pub fn budget(&self) -> (r: Option<(u64, u64)>)
        ensures
            r == self.granted().budget(),
    {
        match self.grants.daily_budget {
            Some(credits) => Some(
                (
                    credits,
                    match self.grants.budget_window {
                        Some(window) => window,
                        None => budget::WINDOW_SECS,
                    },
                ),
            ),
            None => None,
        }
    }

    /// May this caller ask at all?
    pub fn may_ask(&self, asker: &str) -> (r: bool)
        ensures
            r == self.granted().may_ask(asker@),
    {
        text::listed(self.grants.requesters.as_slice(), "everyone") || text::listed(
            self.grants.requesters.as_slice(),
            asker,
        )
    }
}

// ---------------------------------------------------------------------------
// what holds of every policy
// ---------------------------------------------------------------------------

/// Nobody lists themselves out of existence: a policy that was read admits somebody.
pub proof fn law_a_policy_admits_somebody(s: Seq<char>)
    requires
        grants_of(s) is Ok,
    ensures
        grants_of(s)->Ok_0.requesters.len() > 0,
{
}

/// Prose may lower a number, and raise it only as far as the organisation wrote down: the
/// ceiling is the standing limit or the maximum, whichever is more.
pub proof fn law_prose_cannot_expand_entitlement_unless_the_organisation_said_so(g: GrantsView)
    ensures
        g.ceiling() >= g.standing_limit,
        g.ceiling() == g.standing_limit || g.max_limit == Some(g.ceiling()),
        g.max_limit is None ==> g.ceiling() == g.standing_limit,
{
}

/// Prose is not parsed: what stands before the block and behind it changes nothing that the
/// block settles.
pub proof fn law_only_the_block_is_read(a: Seq<char>, b: Seq<char>)
    requires
        fenced(a, "yaml"@) is Some,
        fenced(b, "yaml"@) is Some,
        fenced(a, "yaml"@)->Some_0.0 == fenced(b, "yaml"@)->Some_0.0,
        !text::holds(fenced(a, "yaml"@)->Some_0.1, "```yaml"@),
        !text::holds(fenced(b, "yaml"@)->Some_0.1, "```yaml"@),
    ensures
        grants_of(a) == grants_of(b),
{
}

proof fn lemma_comment_in(head: Seq<char>, tail: Seq<char>, i: int)
    requires
        0 <= i <= head.len(),
    ensures
        comment_from(head, i) < head.len() ==> comment_from(head + tail, i) == comment_from(
            head,
            i,
        ),
        comment_from(head, i) >= head.len() ==> comment_from(head + tail, i) == comment_from(
            head + tail,
            head.len() as int,
        ),
    decreases head.len() - i,
{
    if i < head.len() {
        assert((head + tail)[i] == head[i]);
        assert(i > 0 ==> (head + tail)[i - 1] == head[i - 1]);
        if !(head[i] == '#' && (i == 0 || text::is_space(head[i - 1]))) {
            lemma_comment_in(head, tail, i + 1);
        }
    }
}

proof fn lemma_trim_start_before_space(s: Seq<char>)
    ensures
        text::trim_start_of(s).len() > 0 ==> text::trim_start_of(s.push(' ')) == text::trim_start_of(
            s,
        ).push(' '),
        text::trim_start_of(s).len() == 0 ==> text::trim_start_of(s.push(' ')).len() == 0,
    decreases s.len(),
{
    if s.len() == 0 {
        assert(s.push(' ').drop_first() =~= Seq::<char>::empty());
        reveal_with_fuel(text::trim_start_of, 2);
    } else {
        assert(s.push(' ')[0] == s[0]);
        assert(s.push(' ').drop_first() =~= s.drop_first().push(' '));
        lemma_trim_start_before_space(s.drop_first());
    }
}

/// A comment behind a line changes nothing that the line does, whatever either says.
pub proof fn law_a_comment_changes_nothing(at: Reading, line: Seq<char>, comment: Seq<char>)
    ensures
        read_line(at, line + " #"@ + comment) == read_line(at, line),
{
    reveal_strlit(" #");
    let tail = " #"@ + comment;
    let whole = line + " #"@ + comment;
    assert(whole =~= line + tail);
    lemma_comment_in(line, tail, 0);
    lemma_comment_from(line, 0);
    if comment_from(line, 0) < line.len() {
        assert(uncommented(whole) =~= uncommented(line));
    } else {
        let n = line.len() as int;
        assert(whole[n] == ' ');
        assert(whole[n + 1] == '#');
        assert(comment_from(whole, n + 1) == n + 1);
        assert(comment_from(whole, n) == n + 1);
        assert(uncommented(whole) =~= line.push(' '));
        assert(uncommented(line) =~= line);
        lemma_trim_start_before_space(line);
        let start = text::trim_start_of(line);
        if start.len() > 0 {
            assert(start.push(' ').drop_last() =~= start);
            assert(text::trim_end_of(start.push(' ')) == text::trim_end_of(start));
        } else {
            assert(text::trim_start_of(line.push(' ')) =~= start);
        }
    }
}

// ---------------------------------------------------------------------------
// what a policy settles
// ---------------------------------------------------------------------------

/// Whoever stands anywhere in the list of requesters may ask, and so may everybody where
/// `everyone` stands anywhere in it; and nobody else may.
pub proof fn law_whoever_is_listed_may_ask(g: GrantsView, asker: Seq<char>, i: int)
    requires
        0 <= i < g.requesters.len(),
    ensures
        g.may_ask(g.requesters[i]),
        g.requesters[i] == "everyone"@ ==> g.may_ask(asker),
        g.may_ask(asker) <==> exists|k: int|
            0 <= k < g.requesters.len() && (#[trigger] g.requesters[k] == asker || g.requesters[k]
                == "everyone"@),
{
    if g.may_ask(asker) {
        if g.requesters.contains("everyone"@) {
            let k = choose|k: int| 0 <= k < g.requesters.len() && g.requesters[k] == "everyone"@;
            assert(g.requesters[k] == "everyone"@);
        } else {
            let k = choose|k: int| 0 <= k < g.requesters.len() && g.requesters[k] == asker;
            assert(g.requesters[k] == asker);
        }
    }
}

/// Where nobody is listed, nobody may ask.
pub proof fn law_an_empty_list_admits_nobody(g: GrantsView, asker: Seq<char>)
    requires
        g.requesters.len() == 0,
    ensures
        !g.may_ask(asker),
{
}

/// A caller is refused exactly where neither they nor `everyone` is listed. Otherwise the
/// prose decides on what they asked for, one where they did not say, between the standing
/// limit and the larger of that and the maximum.
pub proof fn law_only_the_list_refuses(
    ruling: Ruling,
    g: GrantsView,
    asker: Seq<char>,
    count: Option<u32>,
)
    requires
        rules(ruling, g, asker, count),
    ensures
        ruling is Deny <==> forall|k: int|
            0 <= k < g.requesters.len() ==> #[trigger] g.requesters[k] != asker && g.requesters[k]
                != "everyone"@,
        ruling matches Ruling::Consider { wanted, standing, ceiling } ==> {
            &&& count matches Some(n) ==> wanted == n
            &&& count is None ==> wanted == 1
            &&& standing == g.standing_limit
            &&& ceiling >= standing
            &&& g.max_limit is None ==> ceiling == standing
            &&& g.max_limit matches Some(most) ==> ceiling >= most && (ceiling == most || ceiling
                == standing)
        },
{
    if g.requesters.len() > 0 {
        law_whoever_is_listed_may_ask(g, asker, 0);
    }
}

/// What holds where nothing is written down: everyone may ask, ten machines are ordinary and
/// no more can be had, and a grant lasts ten minutes.
pub proof fn law_without_a_block_the_defaults_hold(s: Seq<char>, asker: Seq<char>)
    requires
        fenced(s, "yaml"@) is None,
    ensures
        grants_of(s) matches Ok(g) && g.may_ask(asker) && g.standing_limit == 10 && g.ceiling()
            == 10 && g.reservation_seconds == 600 && g.budget() is None,
{
    assert(GrantsView::default().requesters[0] == "everyone"@);
}

/// A budget is what the block says, over a day where it names no window.
pub proof fn law_a_budget_is_counted_over_its_window_or_a_day(g: GrantsView)
    ensures
        g.daily_budget is None ==> g.budget() is None,
        g.daily_budget matches Some(credits) ==> {
            &&& g.budget_window matches Some(window) ==> g.budget() == Some((credits, window))
            &&& g.budget_window is None ==> g.budget() == Some((credits, 86_400u64))
        },
{
}

/// A word that a line can hold as it is: nothing in it ends the line, starts a comment or
/// parts a name from a value.
pub open spec fn is_plain_word(s: Seq<char>) -> bool {
    &&& s.len() > 0
    &&& forall|i: int|
        0 <= i < s.len() ==> !text::is_space(#[trigger] s[i]) && s[i] != '#' && s[i] != ':'
}

proof fn lemma_no_comment(line: Seq<char>, i: int)
    requires
        0 <= i <= line.len(),
        forall|k: int| 0 <= k < line.len() ==> #[trigger] line[k] != '#',
    ensures
        comment_from(line, i) == line.len(),
    decreases line.len() - i,
{
    if i < line.len() {
        assert(line[i] != '#');
        lemma_no_comment(line, i + 1);
    }
}

proof fn lemma_setting(at: Reading, key: Seq<char>, value: Seq<char>)
    requires
        is_plain_word(key),
        is_plain_word(value),
        key[0] != '-',
    ensures
        read_line(at, key + ": "@ + value) == set(at, key, value),
{
    reveal_strlit(": ");
    reveal_strlit("- ");
    let line = key + ": "@ + value;
    let n = key.len() as int;
    assert forall|k: int| 0 <= k < line.len() implies #[trigger] line[k] != '#' by {
        if k < n {
            assert(line[k] == key[k]);
        } else if k >= n + 2 {
            assert(line[k] == value[k - n - 2]);
        }
    }
    lemma_no_comment(line, 0);
    assert(uncommented(line) =~= line);
    assert(line[0] == key[0]);
    assert(line[line.len() - 1] == value[value.len() - 1]);
    assert(text::trim_of(line) == line);
    assert(!text::begins(line, "- "@)) by {
        if text::begins(line, "- "@) {
            assert(line.take(2)[0] == line[0]);
        }
    }
    assert forall|k: int| 0 <= k < n implies line[k] != ':' by {
        assert(line[k] == key[k]);
    }
    text::lemma_place_is(line, ':', n);
    assert(line.take(n) =~= key);
    assert(key[key.len() - 1] != ' ');
    assert(text::trim_of(key) == key);
    let rest = line.skip(n + 1);
    assert(rest =~= seq![' '] + value);
    assert(rest.drop_first() =~= value);
    assert(text::trim_start_of(value) == value);
    assert(text::trim_of(rest) == value);
}

proof fn lemma_number_is_plain(n: nat)
    ensures
        is_plain_word(text::decimal_of(n)),
{
    text::lemma_decimal_reads_back(n);
    let s = text::decimal_of(n);
    assert forall|i: int| 0 <= i < s.len() implies !text::is_space(#[trigger] s[i]) && s[i] != '#'
        && s[i] != ':' by {
        assert(text::is_digit(s[i]));
    }
}

/// A line of the block that sets a number sets that number and nothing else, and it is the
/// number that stands there.
pub proof fn law_a_setting_sets_what_it_names(at: Reading, n: u32, long: u64)
    ensures
        read_line(at, "standing_limit: "@ + text::decimal_of(n as nat)) == Ok::<
            Reading,
            Seq<char>,
        >(Reading { grants: GrantsView { standing_limit: n, ..at.grants }, listing: false }),
        read_line(at, "max_limit: "@ + text::decimal_of(n as nat)) == Ok::<Reading, Seq<char>>(
            Reading { grants: GrantsView { max_limit: Some(n), ..at.grants }, listing: false },
        ),
        read_line(at, "reservation_seconds: "@ + text::decimal_of(long as nat)) == Ok::<
            Reading,
            Seq<char>,
        >(
            Reading {
                grants: GrantsView { reservation_seconds: long, ..at.grants },
                listing: false,
            },
        ),
        read_line(at, "daily_budget: "@ + text::decimal_of(long as nat)) == Ok::<
            Reading,
            Seq<char>,
        >(
            Reading {
                grants: GrantsView { daily_budget: Some(long), ..at.grants },
                listing: false,
            },
        ),
        read_line(at, "budget_window: "@ + text::decimal_of(long as nat)) == Ok::<
            Reading,
            Seq<char>,
        >(
            Reading {
                grants: GrantsView { budget_window: Some(long), ..at.grants },
                listing: false,
            },
        ),
{
    lemma_number_is_plain(n as nat);
    lemma_number_is_plain(long as nat);
    text::lemma_decimal_reads_back(n as nat);
    text::lemma_decimal_reads_back(long as nat);
    let a = text::decimal_of(n as nat);
    let b = text::decimal_of(long as nat);
    reveal_strlit(": ");
    reveal_strlit("standing_limit: ");
    reveal_strlit("standing_limit");
    reveal_strlit("max_limit: ");
    reveal_strlit("max_limit");
    reveal_strlit("reservation_seconds: ");
    reveal_strlit("reservation_seconds");
    reveal_strlit("daily_budget: ");
    reveal_strlit("daily_budget");
    reveal_strlit("budget_window: ");
    reveal_strlit("budget_window");
    reveal_strlit("requesters");
    lemma_setting(at, "standing_limit"@, a);
    lemma_setting(at, "max_limit"@, a);
    lemma_setting(at, "reservation_seconds"@, b);
    lemma_setting(at, "daily_budget"@, b);
    lemma_setting(at, "budget_window"@, b);
    assert("standing_limit: "@ + a =~= "standing_limit"@ + ": "@ + a);
    assert("max_limit: "@ + a =~= "max_limit"@ + ": "@ + a);
    assert("reservation_seconds: "@ + b =~= "reservation_seconds"@ + ": "@ + b);
    assert("daily_budget: "@ + b =~= "daily_budget"@ + ": "@ + b);
    assert("budget_window: "@ + b =~= "budget_window"@ + ": "@ + b);
    assert("standing_limit"@.len() == 14 && "max_limit"@.len() == 9);
    assert("reservation_seconds"@.len() == 19 && "daily_budget"@.len() == 12);
    assert("budget_window"@.len() == 13 && "requesters"@.len() == 10);
}

/// A value that is no number where a number is due is an error, and never a default.
pub proof fn law_what_is_no_number_is_an_error(at: Reading, key: Seq<char>, value: Seq<char>)
    requires
        key == "standing_limit"@ || key == "max_limit"@ || key == "reservation_seconds"@ || key
            == "daily_budget"@ || key == "budget_window"@,
        exists|i: int| 0 <= i < value.len() && !('0' <= #[trigger] value[i] <= '9') && (value[i]
            != '+' || i > 0),
    ensures
        set(at, key, value) is Err,
{
    reveal_strlit("standing_limit");
    reveal_strlit("max_limit");
    reveal_strlit("reservation_seconds");
    reveal_strlit("daily_budget");
    reveal_strlit("budget_window");
    reveal_strlit("requesters");
    assert("standing_limit"@.len() == 14 && "max_limit"@.len() == 9);
    assert("reservation_seconds"@.len() == 19 && "daily_budget"@.len() == 12);
    assert("budget_window"@.len() == 13 && "requesters"@.len() == 10);
    let i = choose|i: int|
        0 <= i < value.len() && !('0' <= #[trigger] value[i] <= '9') && (value[i] != '+' || i > 0);
    let d = if value.len() > 0 && value[0] == '+' {
        value.drop_first()
    } else {
        value
    };
    assert(!text::all_digits(d)) by {
        if value[0] == '+' {
            assert(!text::is_digit(d[i - 1]));
        } else {
            assert(!text::is_digit(d[i]));
        }
    }
}

/// An item below `requesters:` adds the name that stands there to the list, behind those that
/// were there, and the list goes on.
pub proof fn law_an_item_adds_a_requester(at: Reading, name: Seq<char>)
    requires
        at.listing,
        is_plain_word(name),
    ensures
        read_line(at, "- "@ + name) == Ok::<Reading, Seq<char>>(
            Reading {
                grants: GrantsView { requesters: at.grants.requesters.push(name), ..at.grants },
                listing: true,
            },
        ),
{
    reveal_strlit("- ");
    let line = "- "@ + name;
    assert forall|k: int| 0 <= k < line.len() implies #[trigger] line[k] != '#' by {
        if k >= 2 {
            assert(line[k] == name[k - 2]);
        }
    }
    lemma_no_comment(line, 0);
    assert(uncommented(line) =~= line);
    assert(line[line.len() - 1] == name[name.len() - 1]);
    assert(text::trim_of(line) == line);
    assert(line.take(2) =~= "- "@);
    assert(line.skip(2) =~= name);
    assert(name[0] != ' ');
    assert(text::trim_of(name) == name);
}

/// The list of requesters begins where it is named.
pub proof fn law_the_list_begins_where_it_is_named(at: Reading)
    ensures
        read_line(at, "requesters:"@) == Ok::<Reading, Seq<char>>(
            Reading { grants: at.grants, listing: true },
        ),
{
    reveal_strlit("requesters:");
    reveal_strlit("requesters");
    reveal_strlit("- ");
    let line = "requesters:"@;
    lemma_no_comment(line, 0);
    assert(uncommented(line) =~= line);
    assert(text::trim_of(line) == line);
    assert(!text::begins(line, "- "@)) by {
        if text::begins(line, "- "@) {
            assert(line.take(2)[0] == line[0]);
        }
    }
    text::lemma_place_is(line, ':', 10);
    assert(line.take(10) =~= "requesters"@);
    assert(text::trim_of("requesters"@) == "requesters"@);
    assert(line.skip(11) =~= Seq::<char>::empty());
    assert(text::trim_of(line.skip(11)) =~= Seq::<char>::empty());
}

/// The block is what stands between the first fence that is marked as yaml and the fence that
/// closes it. Prose before it, whatever it says, is no part of it.
pub proof fn law_the_block_stands_between_its_fences(
    before: Seq<char>,
    block: Seq<char>,
    behind: Seq<char>,
)
    requires
        forall|i: int| 0 <= i < before.len() ==> #[trigger] before[i] != '`',
        forall|i: int| 0 <= i < block.len() ==> #[trigger] block[i] != '`',
    ensures
        fenced(before + "```yaml"@ + block + "```"@ + behind, "yaml"@) == Some((block, behind)),
{
    reveal_strlit("```yaml");
    reveal_strlit("```");
    reveal_strlit("yaml");
    let open = "```"@ + "yaml"@;
    assert(open =~= "```yaml"@);
    let s = before + "```yaml"@ + block + "```"@ + behind;
    let n = before.len() as int;
    lemma_found_at(s, open, n);
    let rest = s.skip(n + open.len());
    assert(rest =~= block + "```"@ + behind);
    lemma_found_at(rest, "```"@, block.len() as int);
    assert(rest.take(block.len() as int) =~= block);
    assert(rest.skip(block.len() as int + 3) =~= behind);
}

proof fn lemma_found_at(s: Seq<char>, part: Seq<char>, n: int)
    requires
        0 <= n,
        n + part.len() <= s.len(),
        part.len() > 0,
        part[0] == '`',
        s.subrange(n, n + part.len()) =~= part,
        forall|i: int| 0 <= i < n ==> #[trigger] s[i] != '`',
    ensures
        text::find_from(s, part, 0) == Some(n),
{
    text::lemma_find_from(s, part, 0);
    match text::find_from(s, part, 0) {
        Some(i) => {
            if i < n {
                assert(s.subrange(i, i + part.len())[0] == s[i]);
            } else if i > n {
                assert(s.subrange(n, n + part.len()) == part);
            }
        },
        None => {
            assert(s.subrange(n, n + part.len()) == part);
        },
    }
}

/// Everybody below `requesters:` is on the list, in the order they stand there, however many
/// there are.
pub proof fn law_everybody_below_requesters_is_listed(names: Seq<Seq<char>>)
    requires
        forall|i: int| 0 <= i < names.len() ==> is_plain_word(#[trigger] names[i]),
    ensures
        ({
            let lines = seq!["requesters:"@] + names.map_values(|n: Seq<char>| "- "@ + n);
            &&& read_lines(lines) matches Ok(at)
            &&& at.listing
            &&& at.grants.requesters == names
        }),
    decreases names.len(),
{
    let item = |n: Seq<char>| "- "@ + n;
    let lines = seq!["requesters:"@] + names.map_values(item);
    if names.len() == 0 {
        let none = Seq::<Seq<char>>::empty();
        assert(lines.drop_last() =~= none);
        assert(lines.last() == "requesters:"@);
        assert(read_lines(none) is Ok);
        law_the_list_begins_where_it_is_named(read_lines(none)->Ok_0);
        assert(names =~= none);
    } else {
        let less = names.drop_last();
        assert forall|i: int| 0 <= i < less.len() implies is_plain_word(#[trigger] less[i]) by {
            assert(is_plain_word(names[i]));
        }
        law_everybody_below_requesters_is_listed(less);
        assert(lines.drop_last() =~= seq!["requesters:"@] + less.map_values(item));
        assert(lines.last() == "- "@ + names.last());
        assert(is_plain_word(names[names.len() - 1]));
        let at = read_lines(lines.drop_last())->Ok_0;
        law_an_item_adds_a_requester(at, names.last());
        assert(less.push(names.last()) =~= names);
    }
}

/// A policy settles what its block reads as, line by line. A block that lists nobody admits
/// everyone, and a second block is refused.
pub proof fn law_a_policy_settles_what_its_block_reads_as(
    before: Seq<char>,
    block: Seq<char>,
    behind: Seq<char>,
    asker: Seq<char>,
)
    requires
        forall|i: int| 0 <= i < before.len() ==> #[trigger] before[i] != '`',
        forall|i: int| 0 <= i < block.len() ==> #[trigger] block[i] != '`',
    ensures
        ({
            let s = before + "```yaml"@ + block + "```"@ + behind;
            &&& text::holds(behind, "```yaml"@) ==> grants_of(s) is Err
            &&& !text::holds(behind, "```yaml"@) ==> match read_lines(text::lines_of(block)) {
                Ok(at) => {
                    &&& grants_of(s) matches Ok(g)
                    &&& g.standing_limit == at.grants.standing_limit
                    &&& g.max_limit == at.grants.max_limit
                    &&& g.reservation_seconds == at.grants.reservation_seconds
                    &&& g.daily_budget == at.grants.daily_budget
                    &&& g.budget_window == at.grants.budget_window
                    &&& at.grants.requesters.len() > 0 ==> g.requesters == at.grants.requesters
                    &&& at.grants.requesters.len() == 0 ==> g.may_ask(asker)
                },
                Err(_) => grants_of(s) is Err,
            }
        }),
{
    law_the_block_stands_between_its_fences(before, block, behind);
    assert(seq!["everyone"@][0] == "everyone"@);
}

/// Whoever may not ask is told so by name.
pub proof fn law_whoever_may_not_ask_is_told_so(
    ruling: Ruling,
    g: GrantsView,
    asker: Seq<char>,
    count: Option<u32>,
)
    requires
        rules(ruling, g, asker, count),
        !g.may_ask(asker),
    ensures
        ruling matches Ruling::Deny { rationale } && rationale@ == asker
            + " is not in the requesters list"@,
{
}

} // verus!
