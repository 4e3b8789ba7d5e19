//! `nivedanas/`: the pleas an organisation is willing to hear, in its own words.
//!
//! Each heading in any `.md` file there is an alias, and the prose under it is what the
//! model reads. A caller then names one, and the words that are weighed are the
//! organisation's, not theirs.

use vstd::prelude::*;
use vstd::string::*;

use crate::proto::{self, FileView, PolicyFile};
use crate::table::{self, Table};
use crate::text;

verus! {

pub const DIR: &'static str = "nivedanas";

#[derive(Debug, Clone)]
pub struct Plea {
    /// The heading as written, for showing people.
    pub title: String,
    /// The prose under it. What the model reads.
    pub prose: String,
}

#[verifier::ext_equal]
pub struct PleaView {
    pub title: Seq<char>,
    pub prose: Seq<char>,
}

impl View for Plea {
    type V = PleaView;

    open spec fn view(&self) -> PleaView {
        PleaView { title: self.title@, prose: self.prose@ }
    }
}

/// What a list of pleas is.
pub open spec fn pleas(list: Seq<Plea>) -> Seq<PleaView> {
    list.map_values(|p: Plea| p@)
}

// ---------------------------------------------------------------------------
// aliases
// ---------------------------------------------------------------------------

/// A character that ASCII has.
pub open spec fn is_ascii(c: char) -> bool {
    c as u32 <= 127
}

/// Is this character, which ASCII does not have, a letter or a digit, as Unicode has it?
pub uninterp spec fn is_alphanumeric(c: char) -> bool;

/// A letter or a digit: of ASCII `A` to `Z`, `a` to `z` and `0` to `9`, of the rest what
/// Unicode calls one.
pub open spec fn is_letter(c: char) -> bool {
    if is_ascii(c) {
        ('a' <= c <= 'z') || ('A' <= c <= 'Z') || ('0' <= c <= '9')
    } else {
        is_alphanumeric(c)
    }
}

/// `char::is_alphanumeric`: letters and digits, going by the tables of Unicode that `std`
/// has. Of an ASCII character it is claimed which ones these are; of any other, only that
/// one character always gives the same answer.
#[verifier::external_body]
pub(crate) fn alphanumeric(c: char) -> (r: bool)
    ensures
        is_ascii(c) ==> r == (('a' <= c <= 'z') || ('A' <= c <= 'Z') || ('0' <= c <= '9')),
        !is_ascii(c) ==> r == is_alphanumeric(c),
{
    c.is_alphanumeric()
}

/// A character that ASCII does not have in lower case, as Unicode has it: mostly one
/// character, sometimes more.
pub uninterp spec fn lowered(c: char) -> Seq<char>;

/// A character of ASCII in lower case.
pub open spec fn small(c: char) -> char {
    if 'A' <= c <= 'Z' {
        (c as u32 + 32) as char
    } else {
        c
    }
}

/// A character in lower case.
pub open spec fn lower_case(c: char) -> Seq<char> {
    if is_ascii(c) {
        seq![small(c)]
    } else {
        lowered(c)
    }
}

/// `char::to_lowercase`: the lower case of a character, going by the tables of Unicode that
/// `std` has. Of an ASCII character it is claimed what that is; of any other, only that one
/// character always gives the same answer.
#[verifier::external_body]
pub(crate) fn lower(c: char) -> (r: String)
    ensures
        is_ascii(c) ==> r@ == seq![small(c)],
        !is_ascii(c) ==> r@ == lowered(c),
{
    c.to_lowercase().to_string()
}

/// How far a heading has been spelled out: the alias so far, and whether something other
/// than a letter or a digit came last.
pub open spec fn spelled(s: Seq<char>) -> (Seq<char>, bool)
    decreases s.len(),
{
    if s.len() == 0 {
        (Seq::empty(), false)
    } else {
        let (out, pending) = spelled(s.drop_last());
        let c = s.last();
        if is_letter(c) {
            (
                if pending && out.len() > 0 {
                    out.push('-')
                } else {
                    out
                } + lower_case(c),
                false,
            )
        } else {
            (out, true)
        }
    }
}

/// The alias of a heading: lower case, and every run of anything but letters and digits is
/// one hyphen.
pub open spec fn alias(s: Seq<char>) -> Seq<char> {
    spelled(s).0
}

/// Lower case, and every run of anything else becomes one hyphen.
///
/// Applied to the heading *and* to what a caller typed, because a plea nobody can spell is a
/// plea nobody uses.
pub fn alias_of(heading: &str) -> (r: String)
    ensures
        r@ == alias(heading@),
{
    let x = text::chars_of(heading);
    let mut out = String::new();
    let mut pending = false;
    let mut i: usize = 0;
    while i < x.len()
        invariant
            i <= x@.len(),
            x@ == heading@,
            spelled(heading@.take(i as int)) == (out@, pending),
        decreases x@.len() - i,
    {
        proof {
            assert(heading@.take(i as int + 1).drop_last() =~= heading@.take(i as int));
            assert(heading@.take(i as int + 1).last() == x@[i as int]);
        }
        if alphanumeric(x[i]) {
            if pending && !out.as_str().is_empty() {
                out.push('-');
            }
            pending = false;
            out.append(lower(x[i]).as_str());
        } else {
            pending = true;
        }
        i = i + 1;
    }
    assert(heading@.take(i as int) =~= heading@);
    out
}

// ---------------------------------------------------------------------------
// headings and prose
// ---------------------------------------------------------------------------

/// A text without the `#`s that it begins with.
pub open spec fn without_hashes(s: Seq<char>) -> Seq<char>
    decreases s.len(),
{
    if s.len() > 0 && s[0] == '#' {
        without_hashes(s.drop_first())
    } else {
        s
    }
}

fn strip_hashes(s: &str) -> (r: &str)
    ensures
        r@ == without_hashes(s@),
{
    let x = text::chars_of(s);
    let mut i: usize = 0;
    assert(x@.skip(0) =~= s@);
    while i < x.len() && x[i] == '#'
        invariant
            i <= x@.len(),
            x@ == s@,
            without_hashes(x@.skip(i as int)) == without_hashes(s@),
        decreases x@.len() - i,
    {
        assert(x@.skip(i as int).drop_first() =~= x@.skip(i as int + 1));
        i = i + 1;
    }
    let r = text::slice(s, i, x.len());
    assert(r@ =~= x@.skip(i as int));
    r
}

/// How far a file has been read: the pleas that are complete, the heading that is open, what
/// has been read under it, and whether that is inside a fence.
#[verifier::ext_equal]
pub struct Draft {
    pub done: Seq<PleaView>,
    pub title: Option<Seq<char>>,
    pub body: Seq<char>,
    pub fenced: bool,
}

impl Draft {
    /// The open heading is complete.
    pub open spec fn close(self) -> Seq<PleaView> {
        match self.title {
            Some(title) => self.done.push(PleaView { title, prose: text::trim_of(self.body) }),
            None => self.done,
        }
    }
}

/// What one line adds. A `#` inside a fence is a shell comment, not a heading.
pub open spec fn add_line(at: Draft, line: Seq<char>) -> Draft {
    let fenced = if text::begins(text::trim_start_of(line), "```"@) {
        !at.fenced
    } else {
        at.fenced
    };
    if !fenced && text::begins(line, "#"@) {
        Draft {
            done: at.close(),
            title: Some(text::trim_of(without_hashes(line))),
            body: Seq::empty(),
            fenced,
        }
    } else {
        Draft { body: at.body + line + "\n"@, fenced, ..at }
    }
}

pub open spec fn draft(lines: Seq<Seq<char>>) -> Draft
    decreases lines.len(),
{
    if lines.len() == 0 {
        Draft { done: Seq::empty(), title: None, body: Seq::empty(), fenced: false }
    } else {
        add_line(draft(lines.drop_last()), lines.last())
    }
}

/// The pleas that say something. A caller naming any other would get a decision made on no
/// information at all.
pub open spec fn worded(list: Seq<PleaView>) -> Seq<PleaView>
    decreases list.len(),
{
    if list.len() == 0 {
        Seq::empty()
    } else if list.last().prose.len() == 0 {
        worded(list.drop_last())
    } else {
        worded(list.drop_last()).push(list.last())
    }
}

/// The pleas that a file writes down.
pub open spec fn pleas_in(s: Seq<char>) -> Seq<PleaView> {
    worded(draft(text::lines_of(s)).close())
}

/// Split markdown into headings and the prose under each.
pub fn parse(s: &str) -> (r: Vec<Plea>)
    ensures
        pleas(r@) == pleas_in(s@),
{
    let lines = text::lines(s);
    let ghost all = text::lines_of(s@);
    let mut done: Vec<Plea> = Vec::new();
    let mut title: Option<String> = None;
    let mut body = String::new();
    let mut fenced = false;
    let mut i: usize = 0;
    proof {
        assert(pleas(done@) =~= Seq::<PleaView>::empty());
    }
    while i < lines.len()
        invariant
            i <= lines@.len(),
            text::texts(lines@) == all,
            draft(all.take(i as int)).done == pleas(done@),
            draft(all.take(i as int)).title == match title {
                Some(t) => Some(t@),
                None => None,
            },
            draft(all.take(i as int)).body == body@,
            draft(all.take(i as int)).fenced == fenced,
        decreases lines@.len() - i,
    {
        let line = lines[i].as_str();
        proof {
            assert(all.take(i as int + 1).drop_last() =~= all.take(i as int));
            assert(all.take(i as int + 1).last() == text::texts(lines@)[i as int]);
        }
        if text::starts_with(text::trim_start(line), "```") {
            fenced = !fenced;
        }
        if !fenced && text::starts_with(line, "#") {
            if let Some(t) = title {
                let plea = Plea { title: t, prose: text::trim(body.as_str()).to_owned() };
                assert(pleas(done@.push(plea)) =~= pleas(done@).push(plea@));
                done.push(plea);
            }
            title = Some(text::trim(strip_hashes(line)).to_owned());
            body = String::new();
        } else {
            body.append(line);
            body.append("\n");
        }
        i = i + 1;
    }
    assert(all.take(i as int) =~= all);
    if let Some(t) = title {
        let plea = Plea { title: t, prose: text::trim(body.as_str()).to_owned() };
        assert(pleas(done@.push(plea)) =~= pleas(done@).push(plea@));
        done.push(plea);
    }
    let ghost closed = pleas(done@);
    let mut r: Vec<Plea> = Vec::new();
    let mut k: usize = 0;
    proof {
        assert(pleas(r@) =~= Seq::<PleaView>::empty());
    }
    while k < done.len()
        invariant
            k <= done@.len(),
            closed == pleas(done@),
            pleas(r@) == worded(closed.take(k as int)),
        decreases done@.len() - k,
    {
        proof {
            assert(closed.take(k as int + 1).drop_last() =~= closed.take(k as int));
            assert(closed.take(k as int + 1).last() == done@[k as int]@);
        }
        if !done[k].prose.as_str().is_empty() {
            let plea = Plea { title: done[k].title.clone(), prose: done[k].prose.clone() };
            assert(pleas(r@.push(plea)) =~= pleas(r@).push(plea@));
            r.push(plea);
        }
        k = k + 1;
    }
    assert(closed.take(k as int) =~= closed);
    r
}

// ---------------------------------------------------------------------------
// the catalogue
// ---------------------------------------------------------------------------

/// The pleas one tenant will hear, by alias.
#[derive(Debug, Clone)]
pub struct Nivedanas {
    pub by_alias: Table<Plea>,
}

impl Default for Nivedanas {
    fn default() -> (r: Self)
        ensures
            r.by_alias.dict() == Map::<Seq<char>, PleaView>::empty(),
    {
        Nivedanas { by_alias: Table::new() }
    }
}

/// What is said of two headings that come to one alias. Resolving it either way would be a
/// silent choice about whose plea a caller gets.
pub open spec fn same_plea(
    path: Seq<char>,
    first: Seq<char>,
    second: Seq<char>,
    key: Seq<char>,
) -> Seq<char> {
    path + ": `"@ + first + "` and `"@ + second + "` are the same plea (`"@ + key + "`)"@
}

/// The catalogue with the pleas of one file added to it.
pub open spec fn with_pleas(
    known: Map<Seq<char>, PleaView>,
    path: Seq<char>,
    list: Seq<PleaView>,
) -> Result<Map<Seq<char>, PleaView>, Seq<char>>
    decreases list.len(),
{
    if list.len() == 0 {
        Ok(known)
    } else {
        match with_pleas(known, path, list.drop_last()) {
            Err(why) => Err(why),
            Ok(known) => {
                let plea = list.last();
                let key = alias(plea.title);
                if key.len() == 0 {
                    Err(path + ": a heading with no name"@)
                } else if known.dom().contains(key) {
                    Err(same_plea(path, known[key].title, plea.title, key))
                } else {
                    Ok(known.insert(key, plea))
                }
            },
        }
    }
}

/// The catalogue that a row of files makes.
pub open spec fn catalogue_of(rows: Seq<(Seq<char>, FileView)>) -> Result<
    Map<Seq<char>, PleaView>,
    Seq<char>,
>
    decreases rows.len(),
{
    if rows.len() == 0 {
        Ok(Map::empty())
    } else {
        match catalogue_of(rows.drop_last()) {
            Err(why) => Err(why),
            Ok(known) => with_pleas(known, rows.last().1.path, pleas_in(rows.last().1.text)),
        }
    }
}

/// Is this a file of pleas, going by its name?
pub open spec fn holds_pleas(path: Seq<char>) -> bool {
    let name = text::pieces(path, '/').last();
    text::ends(name, ".md"@) && name.len() > ".md"@.len()
}

/// The files of pleas, each under its path.
pub open spec fn files_of_pleas(files: Seq<FileView>) -> Map<Seq<char>, FileView>
    decreases files.len(),
{
    if files.len() == 0 {
        Map::empty()
    } else {
        let before = files_of_pleas(files.drop_last());
        if holds_pleas(files.last().path) {
            before.insert(files.last().path, files.last())
        } else {
            before
        }
    }
}

fn of_pleas(path: &str) -> (r: bool)
    ensures
        r == holds_pleas(path@),
{
    let parts = text::split(path, '/');
    proof {
        crate::rulebook::lemma_pieces_some(path@, '/');
        assert(text::texts(parts@).last() == parts@[parts@.len() - 1]@);
    }
    let name = parts[parts.len() - 1].as_str();
    text::ends_with(name, ".md") && name.unicode_len() > ".md".unicode_len()
}

impl Nivedanas {
    /// Reads every `.md` file of the folder of pleas, in the order of their paths. No files
    /// mean no pleas.
    pub fn load(files: &[PolicyFile]) -> (r: Result<Self, String>)
        ensures
            ({
                let want = catalogue_of(table::row_of(files_of_pleas(proto::files(files@))));
                match r {
                    Ok(n) => want == Ok::<Map<Seq<char>, PleaView>, Seq<char>>(n.by_alias.dict()),
                    Err(why) => want == Err::<Map<Seq<char>, PleaView>, Seq<char>>(why@),
                }
            }),
    {
        let mut found: Table<PolicyFile> = Table::new();
        let ghost all = proto::files(files@);
        let mut i: usize = 0;
        while i < files.len()
            invariant
                i <= files@.len(),
                all == proto::files(files@),
                found.dict() == files_of_pleas(all.take(i as int)),
            decreases files@.len() - i,
        {
            proof {
                assert(all.take(i as int + 1).drop_last() =~= all.take(i as int));
                assert(all.take(i as int + 1).last() == files@[i as int]@);
            }
            if of_pleas(files[i].path.as_str()) {
                found.insert(files[i].path.clone(), files[i].copied());
            }
            i = i + 1;
        }
        assert(all.take(i as int) =~= all);
        let many = found.len();
        let ghost rows = found@;
        let mut by_alias: Table<Plea> = Table::new();
        let mut k: usize = 0;
        while k < many
            invariant
                k <= many,
                many == rows.len(),
                rows == found@,
                rows == table::row_of(files_of_pleas(proto::files(files@))),
                catalogue_of(rows.take(k as int)) == Ok::<Map<Seq<char>, PleaView>, Seq<char>>(
                    by_alias.dict(),
                ),
            decreases many - k,
        {
            let file = found.value_at(k);
            proof {
                assert(rows.take(k as int + 1).drop_last() =~= rows.take(k as int));
                assert(rows.take(k as int + 1).last() == rows[k as int]);
            }
            if let Err(why) = add_pleas(&mut by_alias, file.path.as_str(), file.text.as_str()) {
                proof {
                    lemma_catalogue_refused(rows, k as int + 1, why@);
                }
                return Err(why);
            }
            k = k + 1;
        }
        assert(rows.take(k as int) =~= rows);
        Ok(Nivedanas { by_alias })
    }

    /// Is nothing written down?
    pub fn is_empty(&self) -> (r: bool)
        ensures
            r == (self.by_alias@.len() == 0),
    {
        self.by_alias.is_empty()
    }

    /// The plea that was asked for, however it was spelled.
    pub fn get(&self, asked: &str) -> (r: Option<&Plea>)
        ensures
            match r {
                Some(plea) => self.by_alias.dict().dom().contains(alias(asked@)) && plea@
                    == self.by_alias.dict()[alias(asked@)],
                None => !self.by_alias.dict().dom().contains(alias(asked@)),
            },
    {
        self.by_alias.get(alias_of(asked).as_str())
    }

    /// Every alias, in order, for a refusal that helps.
    pub fn aliases(&self) -> (r: Vec<&String>)
        ensures
            r@.len() == self.by_alias@.len(),
            forall|i: int| 0 <= i < r@.len() ==> (#[trigger] r@[i])@ == self.by_alias@[i].0,
            table::ascending(self.by_alias@),
    {
        let mut r: Vec<&String> = Vec::new();
        let many = self.by_alias.len();
        let mut i: usize = 0;
        while i < many
            invariant
                i <= many,
                many == self.by_alias@.len(),
                r@.len() == i,
                forall|k: int| 0 <= k < i ==> (#[trigger] r@[k])@ == self.by_alias@[k].0,
            decreases many - i,
        {
            r.push(self.by_alias.key_at(i));
            i = i + 1;
        }
        r
    }

    /// The catalogue as the model sees it: every plea, in a stable order.
    pub fn catalogue(&self) -> (r: String)
        ensures
            r@ == shown(table::row_of(self.by_alias.dict())),
    {
        let mut parts: Vec<String> = Vec::new();
        let many = self.by_alias.len();
        let ghost rows = self.by_alias@;
        let mut i: usize = 0;
        while i < many
            invariant
                i <= many,
                rows == self.by_alias@,
                many == rows.len(),
                parts@.len() == i,
                forall|k: int| 0 <= k < i ==> (#[trigger] parts@[k])@ == shown_plea(rows[k]),
            decreases many - i,
        {
            let mut part = String::from_str("### ");
            part.append(self.by_alias.key_at(i).as_str());
            part.append("\n");
            part.append(self.by_alias.value_at(i).prose.as_str());
            part.append("\n");
            parts.push(part);
            i = i + 1;
        }
        assert(text::texts(parts@) =~= rows.map_values(|e: (Seq<char>, PleaView)| shown_plea(e)));
        text::join(parts.as_slice(), "\n")
    }
}

/// One plea as the model sees it.
pub open spec fn shown_plea(entry: (Seq<char>, PleaView)) -> Seq<char> {
    "### "@ + entry.0 + "\n"@ + entry.1.prose + "\n"@
}

/// The catalogue as the model sees it.
pub open spec fn shown(rows: Seq<(Seq<char>, PleaView)>) -> Seq<char> {
    text::joined(rows.map_values(|e: (Seq<char>, PleaView)| shown_plea(e)), "\n"@)
}

/// Adds the pleas of one file, or says what is wrong with the first that cannot be added.
fn add_pleas(known: &mut Table<Plea>, path: &str, s: &str) -> (r: Result<(), String>)
    ensures
        match r {
            Ok(_) => with_pleas(old(known).dict(), path@, pleas_in(s@)) == Ok::<
                Map<Seq<char>, PleaView>,
                Seq<char>,
            >(final(known).dict()),
            Err(why) => with_pleas(old(known).dict(), path@, pleas_in(s@)) == Err::<
                Map<Seq<char>, PleaView>,
                Seq<char>,
            >(why@),
        },
{
    let list = parse(s);
    let ghost all = pleas_in(s@);
    let ghost before = known.dict();
    let mut i: usize = 0;
    while i < list.len()
        invariant
            i <= list@.len(),
            all == pleas(list@),
            all == pleas_in(s@),
            before == old(known).dict(),
            with_pleas(before, path@, all.take(i as int)) == Ok::<
                Map<Seq<char>, PleaView>,
                Seq<char>,
            >(known.dict()),
        decreases list@.len() - i,
    {
        let plea = &list[i];
        proof {
            assert(all.take(i as int + 1).drop_last() =~= all.take(i as int));
            assert(all.take(i as int + 1).last() == plea@);
        }
        let key = alias_of(plea.title.as_str());
        if key.as_str().is_empty() {
            let mut why = path.to_owned();
            why.append(": a heading with no name");
            proof {
                lemma_pleas_refused(before, path@, all, i as int + 1, why@);
            }
            return Err(why);
        }
        if let Some(first) = known.get(key.as_str()) {
            let mut why = path.to_owned();
            why.append(": `");
            why.append(first.title.as_str());
            why.append("` and `");
            why.append(plea.title.as_str());
            why.append("` are the same plea (`");
            why.append(key.as_str());
            why.append("`)");
            proof {
                lemma_pleas_refused(before, path@, all, i as int + 1, why@);
            }
            return Err(why);
        }
        let plea = Plea { title: plea.title.clone(), prose: plea.prose.clone() };
        known.insert(key, plea);
        i = i + 1;
    }
    assert(all.take(i as int) =~= all);
    Ok(())
}

proof fn lemma_pleas_refused(
    known: Map<Seq<char>, PleaView>,
    path: Seq<char>,
    list: Seq<PleaView>,
    k: int,
    why: Seq<char>,
)
    requires
        0 <= k <= list.len(),
        with_pleas(known, path, list.take(k)) == Err::<Map<Seq<char>, PleaView>, Seq<char>>(why),
    ensures
        with_pleas(known, path, list) == Err::<Map<Seq<char>, PleaView>, Seq<char>>(why),
    decreases list.len() - k,
{
    if k < list.len() {
        assert(list.take(k + 1).drop_last() =~= list.take(k));
        lemma_pleas_refused(known, path, list, k + 1, why);
    } else {
        assert(list.take(k) =~= list);
    }
}

proof fn lemma_catalogue_refused(rows: Seq<(Seq<char>, FileView)>, k: int, why: Seq<char>)
    requires
        0 <= k <= rows.len(),
        catalogue_of(rows.take(k)) == Err::<Map<Seq<char>, PleaView>, Seq<char>>(why),
    ensures
        catalogue_of(rows) == Err::<Map<Seq<char>, PleaView>, Seq<char>>(why),
    decreases rows.len() - k,
{
    if k < rows.len() {
        assert(rows.take(k + 1).drop_last() =~= rows.take(k));
        lemma_catalogue_refused(rows, k + 1, why);
    } else {
        assert(rows.take(k) =~= rows);
    }
}

// ---------------------------------------------------------------------------
// what holds of every catalogue
// ---------------------------------------------------------------------------

/// A text without a letter or a digit in it.
pub open spec fn is_separator(s: Seq<char>) -> bool {
    s.len() > 0 && forall|i: int| 0 <= i < s.len() ==> !is_letter(#[trigger] s[i])
}

proof fn lemma_spelled_separator(s: Seq<char>, between: Seq<char>)
    requires
        is_separator(between),
    ensures
        spelled(s + between) == (spelled(s).0, true),
    decreases between.len(),
{
    let all = s + between;
    let c = between.last();
    assert(all.last() == c);
    assert(!is_letter(c)) by {
        assert(!is_letter(between[between.len() - 1]));
    }
    assert(all.drop_last() =~= s + between.drop_last());
    if between.len() > 1 {
        assert(is_separator(between.drop_last())) by {
            assert forall|i: int| 0 <= i < between.drop_last().len() implies !is_letter(
                #[trigger] between.drop_last()[i],
            ) by {
                assert(between[i] == between.drop_last()[i]);
            }
        }
        lemma_spelled_separator(s, between.drop_last());
    } else {
        assert(s + between.drop_last() =~= s);
    }
}

proof fn lemma_spelled_tail(a: Seq<char>, b: Seq<char>, tail: Seq<char>)
    requires
        spelled(a) == spelled(b),
    ensures
        spelled(a + tail) == spelled(b + tail),
    decreases tail.len(),
{
    if tail.len() == 0 {
        assert(a + tail =~= a);
        assert(b + tail =~= b);
    } else {
        lemma_spelled_tail(a, b, tail.drop_last());
        assert((a + tail).drop_last() =~= a + tail.drop_last());
        assert((b + tail).drop_last() =~= b + tail.drop_last());
    }
}

/// A plea can be spelled the way anyone would spell it: what parts its words, and how much
/// of that there is, makes no difference to its alias.
pub proof fn law_what_parts_the_words_makes_no_difference(
    head: Seq<char>,
    one: Seq<char>,
    other: Seq<char>,
    tail: Seq<char>,
)
    requires
        is_separator(one),
        is_separator(other),
    ensures
        alias(head + one + tail) == alias(head + other + tail),
{
    lemma_spelled_separator(head, one);
    lemma_spelled_separator(head, other);
    lemma_spelled_tail(head + one, head + other, tail);
}

/// Nor does what stands before the first word, or behind the last.
pub proof fn law_what_stands_around_the_words_makes_no_difference(
    head: Seq<char>,
    one: Seq<char>,
)
    requires
        is_separator(one),
    ensures
        alias(head + one) == alias(head),
{
    lemma_spelled_separator(head, one);
}

/// Nor does a letter's case.
pub proof fn law_case_makes_no_difference(head: Seq<char>, a: char, b: char, tail: Seq<char>)
    requires
        is_letter(a),
        is_letter(b),
        lower_case(a) == lower_case(b),
    ensures
        alias(head.push(a) + tail) == alias(head.push(b) + tail),
{
    assert(head.push(a).drop_last() =~= head);
    assert(head.push(b).drop_last() =~= head);
    lemma_spelled_tail(head.push(a), head.push(b), tail);
}

/// A text that ASCII can write.
pub open spec fn ascii_text(s: Seq<char>) -> bool {
    forall|i: int| 0 <= i < s.len() ==> is_ascii(#[trigger] s[i])
}

/// The letters and digits of a text in ASCII, in order and in lower case.
pub open spec fn letters(s: Seq<char>) -> Seq<char>
    decreases s.len(),
{
    if s.len() == 0 {
        Seq::empty()
    } else if is_letter(s.last()) {
        letters(s.drop_last()).push(small(s.last()))
    } else {
        letters(s.drop_last())
    }
}

/// A text without its hyphens.
pub open spec fn unhyphened(s: Seq<char>) -> Seq<char>
    decreases s.len(),
{
    if s.len() == 0 {
        Seq::empty()
    } else if s.last() == '-' {
        unhyphened(s.drop_last())
    } else {
        unhyphened(s.drop_last()).push(s.last())
    }
}

/// Words in lower case with one hyphen between any two, and nothing else.
pub open spec fn hyphened(s: Seq<char>) -> bool {
    &&& forall|i: int|
        0 <= i < s.len() ==> ('a' <= #[trigger] s[i] <= 'z') || ('0' <= s[i] <= '9') || s[i] == '-'
    &&& s.len() > 0 ==> s[0] != '-' && s[s.len() - 1] != '-'
    &&& forall|i: int, j: int|
        0 <= i && j == i + 1 && j < s.len() ==> !(#[trigger] s[i] == '-' && #[trigger] s[j] == '-')
}

proof fn lemma_spelled_ascii(s: Seq<char>)
    requires
        ascii_text(s),
    ensures
        hyphened(spelled(s).0),
        unhyphened(spelled(s).0) == letters(s),
        spelled(s).0.len() == 0 <==> letters(s).len() == 0,
    decreases s.len(),
{
    if s.len() > 0 {
        let less = s.drop_last();
        assert(ascii_text(less)) by {
            assert forall|i: int| 0 <= i < less.len() implies is_ascii(#[trigger] less[i]) by {
                assert(is_ascii(s[i]));
            }
        }
        lemma_spelled_ascii(less);
        let (out, pending) = spelled(less);
        let c = s.last();
        assert(is_ascii(s[s.len() - 1]));
        if is_letter(c) {
            let head = if pending && out.len() > 0 {
                out.push('-')
            } else {
                out
            };
            let now = head + lower_case(c);
            assert(now =~= head.push(small(c)));
            assert(('a' <= small(c) <= 'z') || ('0' <= small(c) <= '9'));
            assert(now.drop_last() =~= head);
            assert(out.push('-').drop_last() =~= out);
            assert(unhyphened(head) == unhyphened(out));
            assert(hyphened(now)) by {
                assert forall|i: int| 0 <= i < now.len() implies ('a' <= #[trigger] now[i] <= 'z')
                    || ('0' <= now[i] <= '9') || now[i] == '-' by {
                    if i < out.len() {
                        assert(now[i] == out[i]);
                    }
                }
                assert forall|i: int, j: int|
                    0 <= i && j == i + 1 && j < now.len() implies !(#[trigger] now[i] == '-'
                    && #[trigger] now[j] == '-') by {
                    if j < out.len() {
                        assert(now[i] == out[i] && now[j] == out[j]);
                    } else if i < out.len() {
                        assert(now[i] == out[out.len() - 1]);
                    }
                }
                if out.len() > 0 {
                    assert(now[0] == out[0]);
                }
            }
        }
    }
}

proof fn lemma_respelled(a: Seq<char>, k: int)
    requires
        hyphened(a),
        0 <= k <= a.len(),
    ensures
        spelled(a.take(k)) == if k > 0 && a[k - 1] == '-' {
            (a.take(k - 1), true)
        } else {
            (a.take(k), false)
        },
    decreases k,
{
    if k > 0 {
        lemma_respelled(a, k - 1);
        assert(a.take(k).drop_last() =~= a.take(k - 1));
        assert(a.take(k).last() == a[k - 1]);
        let c = a[k - 1];
        if c == '-' {
            assert(k > 1);
            assert(!(a[k - 2] == '-' && a[k - 1] == '-'));
        } else {
            assert(is_letter(c) && small(c) == c);
            if k > 1 && a[k - 2] == '-' {
                assert(a.take(k - 2).push('-') + seq![c] =~= a.take(k));
            } else {
                assert(a.take(k - 1) + seq![c] =~= a.take(k));
            }
        }
    } else {
        assert(a.take(0) =~= Seq::empty());
    }
}

/// What an alias of a heading in ASCII looks like: only `a` to `z`, `0` to `9` and `-`, with
/// no `-` at either end and no two in a row. Without its hyphens it is the heading's letters
/// and digits, in order and in lower case, so it is empty only where the heading has none.
pub proof fn law_an_alias_is_the_letters_with_hyphens_between(heading: Seq<char>)
    requires
        ascii_text(heading),
    ensures
        hyphened(alias(heading)),
        unhyphened(alias(heading)) == letters(heading),
        alias(heading).len() == 0 <==> (forall|i: int|
            0 <= i < heading.len() ==> !is_letter(#[trigger] heading[i])),
{
    lemma_spelled_ascii(heading);
    lemma_no_letters(heading);
}

proof fn lemma_no_letters(s: Seq<char>)
    ensures
        letters(s).len() == 0 <==> (forall|i: int|
            0 <= i < s.len() ==> !is_letter(#[trigger] s[i])),
    decreases s.len(),
{
    if s.len() > 0 {
        let less = s.drop_last();
        lemma_no_letters(less);
        if letters(s).len() == 0 {
            assert forall|i: int| 0 <= i < s.len() implies !is_letter(#[trigger] s[i]) by {
                if i < less.len() {
                    assert(less[i] == s[i]);
                }
            }
        } else if is_letter(s.last()) {
            assert(is_letter(s[s.len() - 1]));
        } else {
            let i = choose|i: int| 0 <= i < less.len() && is_letter(#[trigger] less[i]);
            assert(is_letter(s[i]));
        }
    }
}

/// An alias is its own alias, so a plea can be asked for by the name that a listing shows.
pub proof fn law_an_alias_is_its_own_alias(heading: Seq<char>)
    requires
        ascii_text(heading),
    ensures
        alias(alias(heading)) == alias(heading),
{
    lemma_spelled_ascii(heading);
    let a = alias(heading);
    lemma_respelled(a, a.len() as int);
    assert(a.take(a.len() as int) =~= a);
}

/// A heading ends the plea before it and begins one of its own, called what stands behind its
/// `#`s. Any other line belongs to the plea it stands under.
pub proof fn law_a_heading_begins_a_plea(at: Draft, line: Seq<char>, title: Seq<char>)
    requires
        !at.fenced,
        title.len() > 0,
        title[0] != '#',
    ensures
        ({
            let next = add_line(at, "# "@ + title);
            &&& next.title == Some(text::trim_of(" "@ + title))
            &&& next.body.len() == 0
            &&& next.done == match at.title {
                Some(open) => at.done.push(PleaView { title: open, prose: text::trim_of(at.body) }),
                None => at.done,
            }
            &&& !next.fenced
        }),
        (line.len() == 0 || line[0] != '#') && !text::begins(text::trim_start_of(line), "```"@)
            ==> add_line(at, line) == (Draft { body: at.body + line + "\n"@, ..at }),
{
    reveal_strlit("# ");
    reveal_strlit("#");
    reveal_strlit(" ");
    reveal_strlit("```");
    let heading = "# "@ + title;
    assert(heading[0] == '#');
    assert(!text::is_space('#'));
    assert(text::trim_start_of(heading) == heading);
    assert(heading.take(3)[0] == '#');
    assert(heading.take(1) =~= "#"@);
    assert(heading.drop_first() =~= " "@ + title);
    assert((" "@ + title)[0] == ' ');
    assert(without_hashes(" "@ + title) == " "@ + title);
    if line.len() > 0 && text::begins(line, "#"@) {
        assert(line.take(1)[0] == line[0]);
    }
}

/// A `#` inside a fence is no heading, and a fence opens and closes in turn.
pub proof fn law_a_fence_hides_headings(at: Draft, line: Seq<char>)
    requires
        text::begins(line, "#"@),
    ensures
        at.fenced ==> add_line(at, line) == (Draft { body: at.body + line + "\n"@, ..at }),
        add_line(at, "```"@).fenced == !at.fenced,
        add_line(add_line(at, "```"@), "```"@).fenced == at.fenced,
{
    reveal_strlit("#");
    reveal_strlit("```");
    assert(line.take(1)[0] == line[0]);
    assert(!text::is_space('#'));
    assert(text::trim_start_of(line) == line);
    if text::begins(line, "```"@) {
        assert(line.take(3)[0] == line[0]);
    }
    let fence = "```"@;
    assert(!text::is_space('`'));
    assert(text::trim_start_of(fence) == fence);
    assert(fence.take(3) =~= fence);
    assert(fence.take(1)[0] == '`');
}

/// A plea is heard exactly where something is written under its heading.
pub proof fn law_a_plea_without_words_is_none(list: Seq<PleaView>, plea: PleaView)
    ensures
        worded(Seq::empty()).len() == 0,
        plea.prose.len() > 0 ==> worded(list.push(plea)) == worded(list).push(plea),
        plea.prose.len() == 0 ==> worded(list.push(plea)) == worded(list),
{
    assert(list.push(plea).drop_last() =~= list);
}

/// A plea is added under its alias, whatever was added before it; a second one of the same alias
/// and one without a name are refused, and nothing else is.
pub proof fn law_a_plea_is_found_by_its_alias(
    known: Map<Seq<char>, PleaView>,
    path: Seq<char>,
    list: Seq<PleaView>,
    plea: PleaView,
)
    requires
        with_pleas(known, path, list) is Ok,
    ensures
        ({
            let before = with_pleas(known, path, list)->Ok_0;
            let key = alias(plea.title);
            match with_pleas(known, path, list.push(plea)) {
                Ok(after) => {
                    &&& key.len() > 0
                    &&& !before.dom().contains(key)
                    &&& after == before.insert(key, plea)
                },
                Err(_) => key.len() == 0 || before.dom().contains(key),
            }
        }),
{
    assert(list.push(plea).drop_last() =~= list);
}

/// The pleas of every file are in the catalogue.
pub proof fn law_every_file_adds_its_pleas(
    rows: Seq<(Seq<char>, FileView)>,
    row: (Seq<char>, FileView),
)
    ensures
        catalogue_of(Seq::empty()) == Ok::<Map<Seq<char>, PleaView>, Seq<char>>(Map::empty()),
        catalogue_of(rows) matches Ok(known) ==> catalogue_of(rows.push(row)) == with_pleas(
            known,
            row.1.path,
            pleas_in(row.1.text),
        ),
        catalogue_of(rows) is Err ==> catalogue_of(rows.push(row)) is Err,
{
    assert(rows.push(row).drop_last() =~= rows);
}

/// Pleas stand in files whose names end in `.md`, and in no others.
pub proof fn law_pleas_stand_in_markdown(stem: Seq<char>, files: Seq<FileView>, file: FileView)
    requires
        stem.len() > 0,
        text::lacks(stem, '/'),
    ensures
        holds_pleas(stem + ".md"@),
        !holds_pleas(stem + ".txt"@),
        holds_pleas(file.path) ==> files_of_pleas(files.push(file)) == files_of_pleas(
            files,
        ).insert(file.path, file),
        !holds_pleas(file.path) ==> files_of_pleas(files.push(file)) == files_of_pleas(files),
{
    reveal_strlit(".md");
    reveal_strlit(".txt");
    assert(files.push(file).drop_last() =~= files);
    let a = stem + ".md"@;
    let b = stem + ".txt"@;
    assert forall|i: int| 0 <= i < a.len() implies a[i] != '/' by {
        if i < stem.len() {
            assert(a[i] == stem[i]);
        }
    }
    assert forall|i: int| 0 <= i < b.len() implies b[i] != '/' by {
        if i < stem.len() {
            assert(b[i] == stem[i]);
        }
    }
    text::lemma_place_is(a, '/', a.len() as int);
    text::lemma_place_is(b, '/', b.len() as int);
    assert(text::pieces(a, '/') =~= seq![a]);
    assert(text::pieces(b, '/') =~= seq![b]);
    assert(a.skip(stem.len() as int) =~= ".md"@);
    if text::ends(b, ".md"@) {
        assert(b.skip(b.len() - 3)[2] == 't');
    }
}

/// Every plea is shown under its alias with the words that are weighed.
pub proof fn law_every_plea_is_shown(
    rows: Seq<(Seq<char>, PleaView)>,
    row: (Seq<char>, PleaView),
)
    ensures
        shown(seq![row]) == "### "@ + row.0 + "\n"@ + row.1.prose + "\n"@,
        rows.len() > 0 ==> shown(rows.push(row)) == shown(rows) + "\n"@ + ("### "@ + row.0 + "\n"@
            + row.1.prose + "\n"@),
{
    let show = |e: (Seq<char>, PleaView)| shown_plea(e);
    assert(seq![row].map_values(show) =~= seq![shown_plea(row)]);
    if rows.len() > 0 {
        let before = rows.map_values(show);
        assert(rows.push(row).map_values(show) =~= before.push(shown_plea(row)));
        assert(before.push(shown_plea(row)).drop_last() =~= before);
    }
}

/// Of ASCII, the letters and digits are these sixty-two.
pub proof fn law_the_letters_of_ascii(c: char)
    requires
        c as u32 <= 127,
    ensures
        is_letter(c)
            <==> "abcdefghijklmnopqrstuvwxyzABCDEFGHIJKLMNOPQRSTUVWXYZ0123456789"@.contains(c),
{
    let all = "abcdefghijklmnopqrstuvwxyzABCDEFGHIJKLMNOPQRSTUVWXYZ0123456789"@;
    reveal_strlit("abcdefghijklmnopqrstuvwxyzABCDEFGHIJKLMNOPQRSTUVWXYZ0123456789");
    if 'a' <= c <= 'z' {
        assert(all[c as u32 as int - 97] == c);
    } else if 'A' <= c <= 'Z' {
        assert(all[26 + c as u32 as int - 65] == c);
    } else if '0' <= c <= '9' {
        assert(all[52 + c as u32 as int - 48] == c);
    }
    if all.contains(c) {
        let i = all.index_of(c);
        assert(all[i] == c);
    }
}

} // verus!
