//! Everything a tenant has written down, as one block of text.
//!
//! A file tree, then every file's contents. No schema, no structure imposed: whatever is in
//! the folder is what the model reads, and one pass over it produces the answer.

use vstd::prelude::*;
use vstd::string::*;

use crate::budget;
use crate::fleet;
use crate::policytest;
use crate::proto::{self, FileView, PolicyFile};
use crate::table::{self, Table};
use crate::tenant;
use crate::text;

verus! {

/// A tenant's whole folder is sent on every plea, so it has to stay the sort of thing a
/// person maintains.
pub const MOST_BYTES: u64 = 262_144;

/// A stop against something pathological, and no opinion on how a folder is arranged.
pub const DEEPEST: usize = 8;

// ---------------------------------------------------------------------------
// which files
// ---------------------------------------------------------------------------

/// `tenant.toml` is the host's terms, and the ledger is operational state: neither is the
/// tenant's own writing.
pub open spec fn is_theirs(name: Seq<char>) -> bool {
    name != tenant::FILE@ && name != budget::FILE@
}

pub fn theirs_to_write(name: &str) -> (r: bool)
    ensures
        r == is_theirs(name@),
{
    !text::same(name, tenant::FILE) && !text::same(name, budget::FILE)
}

/// Text, going by the name: a model reads text, and anything else in a policy folder is
/// somebody's mistake rather than a rule.
pub open spec fn is_readable(name: Seq<char>) -> bool {
    ||| text::ends(name, ".md"@)
    ||| text::ends(name, ".txt"@)
    ||| text::ends(name, ".yaml"@)
    ||| text::ends(name, ".yml"@)
    ||| text::ends(name, ".toml"@)
    ||| text::ends(name, ".json"@)
}

pub fn readable(name: &str) -> (r: bool)
    ensures
        r == is_readable(name@),
{
    text::ends_with(name, ".md") || text::ends_with(name, ".txt") || text::ends_with(name, ".yaml")
        || text::ends_with(name, ".yml") || text::ends_with(name, ".toml") || text::ends_with(
        name,
        ".json",
    )
}

/// Is a directory walked into? A hidden one is not, and nor are the policy's own tests:
/// they hold the expected answers.
pub open spec fn is_walked(name: Seq<char>) -> bool {
    !text::begins(name, "."@) && name != policytest::DIR@
}

pub fn walked(name: &str) -> (r: bool)
    ensures
        r == is_walked(name@),
{
    !text::starts_with(name, ".") && !text::same(name, policytest::DIR)
}

/// Is a file of this path, relative to the tenant's folder, part of what is sent?
pub open spec fn is_shown(path: Seq<char>) -> bool {
    let parts = text::pieces(path, '/');
    let name = parts.last();
    &&& parts.len() - 1 <= DEEPEST
    &&& forall|i: int| 0 <= i < parts.len() - 1 ==> is_walked(#[trigger] parts[i])
    &&& !text::begins(name, "."@)
    &&& is_readable(name)
    &&& is_theirs(name)
}

pub fn shown(path: &str) -> (r: bool)
    ensures
        r == is_shown(path@),
{
    let parts = text::split(path, '/');
    let ghost all = text::pieces(path@, '/');
    assert(text::texts(parts@) == all);
    proof {
        lemma_pieces_some(path@, '/');
    }
    if parts.len() - 1 > DEEPEST {
        return false;
    }
    let mut i: usize = 0;
    while i < parts.len() - 1
        invariant
            i <= parts@.len() - 1,
            text::texts(parts@) == all,
            all == text::pieces(path@, '/'),
            forall|k: int| 0 <= k < i ==> is_walked(#[trigger] all[k]),
        decreases parts@.len() - i,
    {
        assert(all[i as int] == parts@[i as int]@);
        if !walked(parts[i].as_str()) {
            return false;
        }
        i = i + 1;
    }
    let name = parts[parts.len() - 1].as_str();
    assert(all.last() == name@);
    !text::starts_with(name, ".") && readable(name) && theirs_to_write(name)
}

/// Cutting a text gives one piece at least.
pub proof fn lemma_pieces_some(s: Seq<char>, c: char)
    ensures
        text::pieces(s, c).len() > 0,
    decreases s.len(),
{
    text::lemma_place_of(s, c);
    if text::place_of(s, c) < s.len() {
        lemma_pieces_some(s.skip(text::place_of(s, c) + 1), c);
    }
}

// ---------------------------------------------------------------------------
// the order of files
// ---------------------------------------------------------------------------

/// A path as it is sorted: directory by directory, so that what is in a folder stands
/// together.
pub open spec fn sort_key(path: Seq<char>) -> Seq<char> {
    path.map_values(|c: char| if c == '/' { '\0' } else { c })
}

fn key(path: &str) -> (r: String)
    ensures
        r@ == sort_key(path@),
{
    let x = text::chars_of(path);
    let mut r = String::new();
    let mut i: usize = 0;
    while i < x.len()
        invariant
            i <= x@.len(),
            x@ == path@,
            r@ == sort_key(path@.take(i as int)),
        decreases x@.len() - i,
    {
        let c = x[i];
        proof {
            let more = path@.take(i as int + 1);
            assert(more =~= path@.take(i as int).push(c));
            assert(sort_key(more) =~= sort_key(path@.take(i as int)).push(
                if c == '/' { '\0' } else { c },
            ));
        }
        if c == '/' {
            r.push('\0');
        } else {
            r.push(c);
        }
        i = i + 1;
    }
    assert(path@.take(i as int) =~= path@);
    r
}

/// The files of a folder that are shown, each under its sort key.
pub open spec fn shelf(files: Seq<FileView>) -> Map<Seq<char>, FileView>
    decreases files.len(),
{
    if files.len() == 0 {
        Map::empty()
    } else {
        let before = shelf(files.drop_last());
        let file = files.last();
        if is_shown(file.path) {
            before.insert(sort_key(file.path), file)
        } else {
            before
        }
    }
}

/// The files of a folder that are shown, in order.
pub open spec fn rows(files: Seq<FileView>) -> Seq<(Seq<char>, FileView)> {
    table::row_of(shelf(files))
}

// ---------------------------------------------------------------------------
// the text
// ---------------------------------------------------------------------------

/// The tree: one line per file.
pub open spec fn tree(rows: Seq<(Seq<char>, FileView)>) -> Seq<char>
    decreases rows.len(),
{
    if rows.len() == 0 {
        Seq::empty()
    } else {
        tree(rows.drop_last()) + "  "@ + rows.last().1.path + "\n"@
    }
}

/// The contents: every file behind its own path, so that one can be told from the next.
pub open spec fn contents(rows: Seq<(Seq<char>, FileView)>) -> Seq<char>
    decreases rows.len(),
{
    if rows.len() == 0 {
        Seq::empty()
    } else {
        contents(rows.drop_last()) + "--- "@ + rows.last().1.path + " ---\n"@ + text::trim_end_of(
            rows.last().1.text,
        ) + "\n\n"@
    }
}

/// The block of text. An empty folder is nothing, rather than an empty heading.
pub open spec fn rendering(rows: Seq<(Seq<char>, FileView)>) -> Seq<char> {
    if rows.len() == 0 {
        Seq::empty()
    } else {
        "FILES\n"@ + tree(rows) + "\nCONTENTS\n"@ + contents(rows)
    }
}

/// How many bytes the files hold.
pub open spec fn bytes(rows: Seq<(Seq<char>, FileView)>) -> nat
    decreases rows.len(),
{
    if rows.len() == 0 {
        0
    } else {
        bytes(rows.drop_last()) + vstd::utf8::encode_utf8(rows.last().1.text).len()
    }
}

/// What is said of a folder that is too big.
pub open spec fn too_big(total: nat) -> Seq<char> {
    "this tenant's folder is "@ + text::decimal_of(total) + " bytes, over the "@
        + text::decimal_of(MOST_BYTES as nat)
        + " that can be weighed at once. It is read in full on every request, so it has to stay something a person maintains."@
}

#[derive(Debug, Clone)]
pub struct Rulebook {
    rendered: String,
}

impl Default for Rulebook {
    fn default() -> (r: Self)
        ensures
            r@ == Seq::<char>::empty(),
    {
        Rulebook { rendered: String::new() }
    }
}

impl View for Rulebook {
    type V = Seq<char>;

    closed spec fn view(&self) -> Seq<char> {
        self.rendered@
    }
}

/// Does this result say what a folder comes to?
pub open spec fn reads(result: Result<Rulebook, String>, rows: Seq<(Seq<char>, FileView)>) -> bool {
    if bytes(rows) > MOST_BYTES {
        &&& result matches Err(why)
        &&& why@ == too_big(fleet::at_most(bytes(rows), u64::MAX as nat))
    } else {
        &&& result matches Ok(book)
        &&& book@ == rendering(rows)
    }
}

impl Rulebook {
    /// The block of text that a folder comes to: the files of it that are shown, in order.
    ///
    /// Refused where it is too big, rather than cut short: half a policy enforced as though
    /// it were the whole one would be invisible.
    pub fn from_files(files: &[PolicyFile]) -> (r: Result<Self, String>)
        ensures
            reads(r, rows(proto::files(files@))),
    {
        let mut shelved: Table<PolicyFile> = Table::new();
        let ghost all = proto::files(files@);
        let mut i: usize = 0;
        while i < files.len()
            invariant
                i <= files@.len(),
                all == proto::files(files@),
                shelved.dict() == shelf(all.take(i as int)),
            decreases files@.len() - i,
        {
            proof {
                assert(all.take(i as int + 1).drop_last() =~= all.take(i as int));
                assert(all.take(i as int + 1).last() == files@[i as int]@);
            }
            if shown(files[i].path.as_str()) {
                shelved.insert(key(files[i].path.as_str()), files[i].copied());
            }
            i = i + 1;
        }
        assert(all.take(i as int) =~= all);
        let many = shelved.len();
        let ghost rows = shelved@;
        let mut tree = String::new();
        let mut bodies = String::new();
        let mut total: u64 = 0;
        let mut k: usize = 0;
        while k < many
            invariant
                k <= many,
                many == rows.len(),
                rows == shelved@,
                tree@ == self::tree(rows.take(k as int)),
                bodies@ == contents(rows.take(k as int)),
                total == fleet::at_most(bytes(rows.take(k as int)), u64::MAX as nat),
            decreases many - k,
        {
            proof {
                assert(rows.take(k as int + 1).drop_last() =~= rows.take(k as int));
                assert(rows.take(k as int + 1).last() == rows[k as int]);
            }
            let file = shelved.value_at(k);
            tree.append("  ");
            tree.append(file.path.as_str());
            tree.append("\n");
            bodies.append("--- ");
            bodies.append(file.path.as_str());
            bodies.append(" ---\n");
            bodies.append(text::trim_end(file.text.as_str()));
            bodies.append("\n\n");
            total = match total.checked_add(file.text.as_str().as_bytes().len() as u64) {
                Some(more) => more,
                None => u64::MAX,
            };
            k = k + 1;
        }
        assert(rows.take(k as int) =~= rows);
        if total > MOST_BYTES {
            let mut why = String::from_str("this tenant's folder is ");
            why.append(text::decimal(total).as_str());
            why.append(" bytes, over the ");
            why.append(text::decimal(MOST_BYTES).as_str());
            why.append(
                " that can be weighed at once. It is read in full on every request, so it has to stay something a person maintains.",
            );
            return Err(why);
        }
        if many == 0 {
            return Ok(Rulebook { rendered: String::new() });
        }
        let mut rendered = String::from_str("FILES\n");
        rendered.append(tree.as_str());
        rendered.append("\nCONTENTS\n");
        rendered.append(bodies.as_str());
        Ok(Rulebook { rendered })
    }

    pub fn as_str(&self) -> (r: &str)
        ensures
            r@ == self@,
    {
        self.rendered.as_str()
    }

    pub fn copied(&self) -> (r: Self)
        ensures
            r@ == self@,
    {
        Rulebook { rendered: self.rendered.clone() }
    }
}

// ---------------------------------------------------------------------------
// what holds of every rulebook
// ---------------------------------------------------------------------------

/// The same folder renders identically every time: what it comes to depends on the files
/// that are shown, and not on how they were come by.
pub proof fn law_the_same_folder_renders_identically(
    a: Seq<FileView>,
    b: Seq<FileView>,
    x: Result<Rulebook, String>,
    y: Result<Rulebook, String>,
)
    requires
        shelf(a) == shelf(b),
        reads(x, rows(a)),
        reads(y, rows(b)),
    ensures
        match (x, y) {
            (Ok(x), Ok(y)) => x@ == y@,
            (Err(x), Err(y)) => x@ == y@,
            _ => false,
        },
{
}

/// In whatever order files of different paths are come by, they make the same shelf.
pub proof fn law_files_may_be_come_by_in_any_order(files: Seq<FileView>, a: FileView, b: FileView)
    requires
        sort_key(a.path) != sort_key(b.path),
    ensures
        shelf(files.push(a).push(b)) == shelf(files.push(b).push(a)),
{
    let x = files.push(a).push(b);
    let y = files.push(b).push(a);
    assert(x.drop_last() =~= files.push(a));
    assert(y.drop_last() =~= files.push(b));
    assert(files.push(a).drop_last() =~= files);
    assert(files.push(b).drop_last() =~= files);
    reveal_with_fuel(shelf, 3);
    assert(shelf(x) =~= shelf(y));
}

/// The tests are not part of the policy: a file below a folder of tests changes nothing that
/// is sent, not even in the tree. Nor does a hidden file, nor one of the host's own.
pub proof fn law_what_is_not_shown_changes_nothing(files: Seq<FileView>, file: FileView)
    requires
        ({
            let parts = text::pieces(file.path, '/');
            ||| exists|i: int| 0 <= i < parts.len() - 1 && #[trigger] parts[i] == policytest::DIR@
            ||| exists|i: int| 0 <= i < parts.len() && text::begins(#[trigger] parts[i], "."@)
            ||| parts.last() == tenant::FILE@
            ||| parts.last() == budget::FILE@
        }),
    ensures
        shelf(files.push(file)) == shelf(files),
{
    let parts = text::pieces(file.path, '/');
    lemma_pieces_some(file.path, '/');
    assert(files.push(file).drop_last() =~= files);
    if exists|i: int| 0 <= i < parts.len() && text::begins(#[trigger] parts[i], "."@) {
        let i = choose|i: int| 0 <= i < parts.len() && text::begins(#[trigger] parts[i], "."@);
        if i < parts.len() - 1 {
            assert(!is_walked(parts[i]));
        }
    }
    assert(!is_shown(file.path));
}

// ---------------------------------------------------------------------------
// what the model gets to read
// ---------------------------------------------------------------------------

/// A name of a file or a folder that anybody would pick: one name, and not a hidden one.
pub open spec fn is_open_name(s: Seq<char>) -> bool {
    &&& s.len() > 0
    &&& s[0] != '.'
    &&& text::lacks(s, '/')
}

/// Everything that is text by its name is read, whichever of the six endings it has; and
/// nothing else is.
pub proof fn law_every_kind_of_text_is_read(stem: Seq<char>, name: Seq<char>)
    ensures
        is_readable(stem + ".md"@),
        is_readable(stem + ".txt"@),
        is_readable(stem + ".yaml"@),
        is_readable(stem + ".yml"@),
        is_readable(stem + ".toml"@),
        is_readable(stem + ".json"@),
        is_readable(name) ==> exists|before: Seq<char>|
            name == #[trigger] (before + ".md"@) || name == before + ".txt"@ || name == before
                + ".yaml"@ || name == before + ".yml"@ || name == before + ".toml"@ || name
                == before + ".json"@,
{
    lemma_ending(stem, ".md"@);
    lemma_ending(stem, ".txt"@);
    lemma_ending(stem, ".yaml"@);
    lemma_ending(stem, ".yml"@);
    lemma_ending(stem, ".toml"@);
    lemma_ending(stem, ".json"@);
    if is_readable(name) {
        let end = if text::ends(name, ".md"@) {
            ".md"@
        } else if text::ends(name, ".txt"@) {
            ".txt"@
        } else if text::ends(name, ".yaml"@) {
            ".yaml"@
        } else if text::ends(name, ".yml"@) {
            ".yml"@
        } else if text::ends(name, ".toml"@) {
            ".toml"@
        } else {
            ".json"@
        };
        let before = name.take(name.len() - end.len());
        assert(name =~= before + end);
        assert(name == before + ".md"@ || name == before + ".txt"@ || name == before + ".yaml"@
            || name == before + ".yml"@ || name == before + ".toml"@ || name == before + ".json"@);
        let marked = before + ".md"@;
    }
}

proof fn lemma_ending(stem: Seq<char>, end: Seq<char>)
    ensures
        text::ends(stem + end, end),
{
    assert((stem + end).skip(stem.len() as int) =~= end);
}

/// A file of a tenant's own is shown wherever it stands: in the folder itself or as deep as
/// eight folders below it, none of them hidden and none that of the tests.
pub proof fn law_a_tenants_own_files_are_shown(
    folders: Seq<Seq<char>>,
    stem: Seq<char>,
    name: Seq<char>,
)
    requires
        folders.len() <= 8,
        forall|i: int|
            0 <= i < folders.len() ==> is_open_name(#[trigger] folders[i]) && folders[i]
                != "policy-tests"@,
        is_open_name(stem),
        name == stem + ".md"@ || name == stem + ".txt"@ || name == stem + ".yaml"@ || name == stem
            + ".yml"@ || name == stem + ".toml"@ || name == stem + ".json"@,
        name != "tenant.toml"@,
    ensures
        is_shown(text::joined(folders.push(name), "/"@)),
{
    reveal_strlit(".md");
    reveal_strlit(".txt");
    reveal_strlit(".yaml");
    reveal_strlit(".yml");
    reveal_strlit(".toml");
    reveal_strlit(".json");
    reveal_strlit(".");
    reveal_strlit("/");
    reveal_strlit("spend.log");
    law_every_kind_of_text_is_read(stem, name);
    let parts = folders.push(name);
    let path = text::joined(parts, "/"@);
    assert("/"@ =~= seq!['/']);
    assert(text::lacks(name, '/')) by {
        assert forall|i: int| 0 <= i < name.len() implies #[trigger] name[i] != '/' by {
            if i < stem.len() {
                assert(name[i] == stem[i]);
            }
        }
    }
    assert forall|i: int| 0 <= i < parts.len() implies text::lacks(#[trigger] parts[i], '/') by {
        if i < folders.len() {
            assert(is_open_name(folders[i]));
        }
    }
    text::lemma_pieces_of_joined(parts, '/', "/"@);
    assert forall|i: int| 0 <= i < parts.len() - 1 implies is_walked(#[trigger] parts[i]) by {
        assert(parts[i] == folders[i]);
        lemma_not_hidden(folders[i]);
    }
    assert(name[0] == stem[0]);
    lemma_not_hidden(name);
    assert(name != "spend.log"@) by {
        if name == "spend.log"@ {
            assert(name[name.len() - 1] == 'g');
        }
    }
}

proof fn lemma_not_hidden(name: Seq<char>)
    requires
        name.len() > 0,
        name[0] != '.',
    ensures
        !text::begins(name, "."@),
{
    reveal_strlit(".");
    if text::begins(name, "."@) {
        assert(name.take(1)[0] == name[0]);
    }
}

/// Nothing else is shown: not what is hidden, not what is kept with the tests, not the host's
/// terms and not the ledger, and nothing that is no text by its name.
pub proof fn law_nothing_else_is_shown(path: Seq<char>)
    requires
        is_shown(path),
    ensures
        ({
            let parts = text::pieces(path, '/');
            let name = parts[parts.len() - 1];
            &&& 0 < parts.len() <= 9
            &&& name != "tenant.toml"@
            &&& name != "spend.log"@
            &&& text::ends(name, ".md"@) || text::ends(name, ".txt"@) || text::ends(
                name,
                ".yaml"@,
            ) || text::ends(name, ".yml"@) || text::ends(name, ".toml"@) || text::ends(
                name,
                ".json"@,
            )
            &&& forall|i: int|
                0 <= i < parts.len() ==> (#[trigger] parts[i]).len() == 0 || parts[i][0] != '.'
            &&& forall|i: int|
                0 <= i < parts.len() - 1 ==> #[trigger] parts[i] != "policy-tests"@
        }),
{
    reveal_strlit(".");
    lemma_pieces_some(path, '/');
    let parts = text::pieces(path, '/');
    assert forall|i: int| 0 <= i < parts.len() implies (#[trigger] parts[i]).len() == 0
        || parts[i][0] != '.' by {
        if parts[i].len() > 0 && parts[i][0] == '.' {
            assert(parts[i].take(1) =~= "."@);
            if i < parts.len() - 1 {
                assert(is_walked(parts[i]));
            }
        }
    }
    assert forall|i: int| 0 <= i < parts.len() - 1 implies #[trigger] parts[i]
        != "policy-tests"@ by {
        assert(is_walked(parts[i]));
    }
}

proof fn lemma_shelf_finite(files: Seq<FileView>)
    ensures
        shelf(files).dom().finite(),
    decreases files.len(),
{
    if files.len() > 0 {
        lemma_shelf_finite(files.drop_last());
    }
}

proof fn lemma_shelved(files: Seq<FileView>, i: int)
    requires
        0 <= i < files.len(),
        is_shown(files[i].path),
        forall|j: int| i < j < files.len() ==> sort_key(#[trigger] files[j].path) != sort_key(
            files[i].path,
        ),
    ensures
        shelf(files).dom().contains(sort_key(files[i].path)),
        shelf(files)[sort_key(files[i].path)] == files[i],
    decreases files.len(),
{
    let less = files.drop_last();
    if i < less.len() {
        assert(less[i] == files[i]);
        assert forall|j: int| i < j < less.len() implies sort_key(#[trigger] less[j].path)
            != sort_key(less[i].path) by {
            assert(files[j] == less[j]);
        }
        lemma_shelved(less, i);
        assert(sort_key(files[files.len() - 1].path) != sort_key(files[i].path));
    }
}

proof fn lemma_listed(rows: Seq<(Seq<char>, FileView)>, i: int)
    requires
        0 <= i < rows.len(),
    ensures
        exists|before: Seq<char>, behind: Seq<char>|
            tree(rows) == #[trigger] (before + ("  "@ + rows[i].1.path + "\n"@) + behind),
        exists|before: Seq<char>, behind: Seq<char>|
            contents(rows) == #[trigger] (before + ("--- "@ + rows[i].1.path + " ---\n"@
                + text::trim_end_of(rows[i].1.text) + "\n\n"@) + behind),
    decreases rows.len(),
{
    let less = rows.drop_last();
    let line = "  "@ + rows.last().1.path + "\n"@;
    let whole = "--- "@ + rows.last().1.path + " ---\n"@ + text::trim_end_of(rows.last().1.text)
        + "\n\n"@;
    let none = Seq::<char>::empty();
    if i < less.len() {
        lemma_listed(less, i);
        assert(less[i] == rows[i]);
        let l = "  "@ + rows[i].1.path + "\n"@;
        let (a, b) = choose|before: Seq<char>, behind: Seq<char>|
            tree(less) == #[trigger] (before + l + behind);
        assert(tree(rows) =~= a + l + (b + line));
        let w = "--- "@ + rows[i].1.path + " ---\n"@ + text::trim_end_of(rows[i].1.text)
            + "\n\n"@;
        let (c, d) = choose|before: Seq<char>, behind: Seq<char>|
            contents(less) == #[trigger] (before + w + behind);
        assert(contents(rows) =~= c + w + (d + whole));
    } else {
        assert(tree(rows) =~= tree(less) + line + none);
        assert(contents(rows) =~= contents(less) + whole + none);
    }
}

/// Every file that is shown reaches whoever weighs a plea: its path stands in the tree, and
/// its path and its whole text, but for white space at the end, in the contents.
pub proof fn law_every_shown_file_is_read(files: Seq<FileView>, i: int)
    requires
        0 <= i < files.len(),
        is_shown(files[i].path),
        forall|j: int| i < j < files.len() ==> sort_key(#[trigger] files[j].path) != sort_key(
            files[i].path,
        ),
    ensures
        exists|before: Seq<char>, behind: Seq<char>|
            rendering(rows(files)) == #[trigger] (before + ("  "@ + files[i].path + "\n"@)
                + behind),
        exists|before: Seq<char>, behind: Seq<char>|
            rendering(rows(files)) == #[trigger] (before + ("--- "@ + files[i].path + " ---\n"@
                + text::trim_end_of(files[i].text) + "\n\n"@) + behind),
{
    let all = rows(files);
    lemma_shelf_finite(files);
    lemma_shelved(files, i);
    table::lemma_row_of(shelf(files));
    let key = sort_key(files[i].path);
    assert(table::has_key(all, key));
    let k = choose|k: int| 0 <= k < all.len() && #[trigger] all[k].0 == key;
    table::lemma_entry(all, k);
    assert(all[k].1 == files[i]);
    lemma_listed(all, k);
    let l = "  "@ + files[i].path + "\n"@;
    let (a, b) = choose|before: Seq<char>, behind: Seq<char>|
        tree(all) == #[trigger] (before + l + behind);
    assert(rendering(all) =~= ("FILES\n"@ + a) + l + (b + "\nCONTENTS\n"@ + contents(all)));
    let w = "--- "@ + files[i].path + " ---\n"@ + text::trim_end_of(files[i].text) + "\n\n"@;
    let (c, d) = choose|before: Seq<char>, behind: Seq<char>|
        contents(all) == #[trigger] (before + w + behind);
    assert(rendering(all) =~= ("FILES\n"@ + tree(all) + "\nCONTENTS\n"@ + c) + w + d);
}

/// Files of different paths do not get in each other's way, unless one has a null character
/// in its name.
pub proof fn law_different_paths_are_kept_apart(a: Seq<char>, b: Seq<char>)
    requires
        a != b,
        text::lacks(a, '\0'),
        text::lacks(b, '\0'),
    ensures
        sort_key(a) != sort_key(b),
{
    if sort_key(a) == sort_key(b) {
        assert(a.len() == sort_key(a).len() && b.len() == sort_key(b).len());
        assert forall|i: int| 0 <= i < a.len() implies a[i] == b[i] by {
            assert(sort_key(a)[i] == sort_key(b)[i]);
            assert(a[i] != '\0' && b[i] != '\0');
        }
        assert(a =~= b);
    }
}

/// A folder is weighed as long as its files come to no more than a quarter of a mebibyte, and
/// refused whole where they come to more.
pub proof fn law_a_folder_is_weighed_whole_or_not_at_all(
    result: Result<Rulebook, String>,
    files: Seq<FileView>,
)
    requires
        reads(result, rows(files)),
    ensures
        result is Ok <==> bytes(rows(files)) <= 256 * 1024,
        result matches Ok(book) ==> book@ == rendering(rows(files)),
{
}

/// The size of a folder is that of every text in it, in bytes.
pub proof fn law_every_byte_of_a_folder_counts(
    rows: Seq<(Seq<char>, FileView)>,
    row: (Seq<char>, FileView),
)
    ensures
        bytes(Seq::empty()) == 0,
        bytes(rows.push(row)) == bytes(rows) + vstd::utf8::encode_utf8(row.1.text).len(),
{
    assert(rows.push(row).drop_last() =~= rows);
}

} // verus!
