//! Receiving a policy folder from the machine that has it in version control.
//!
//! Every path is validated before anything is written: it came from another machine, so
//! only its shape is trusted. Then the folder has to parse and fit before it replaces the
//! one that works. And it replaces the lot: a merge would leave files behind that nobody
//! remembers writing and no repository contains.

use vstd::prelude::*;
use vstd::string::*;

use crate::budget;
use crate::fleet;
use crate::path;
use crate::policy::{self, Policy};
use crate::policytest;
use crate::proto::{self, FileView, PolicyFile, Upload};
use crate::rulebook::{self, Rulebook};
use crate::table::{self, Table};
use crate::tenant;
use crate::text;

verus! {

/// Everything the controller keeps for itself, whatever an upload says.
pub open spec fn is_ours(name: Seq<char>) -> bool {
    name == tenant::FILE@ || name == budget::FILE@
}

pub fn ours(name: &str) -> (r: bool)
    ensures
        r == is_ours(name@),
{
    text::same(name, tenant::FILE) || text::same(name, budget::FILE)
}

// ---------------------------------------------------------------------------
// one path
// ---------------------------------------------------------------------------

/// What one piece of a path, the `i`th, adds to what stands before it.
///
/// An empty piece adds nothing, and nor does a `.` but at the start.
pub open spec fn step(path: Seq<char>, before: Seq<Seq<char>>, piece: Seq<char>, i: int) -> Result<
    Seq<Seq<char>>,
    Seq<char>,
> {
    if piece.len() == 0 || (piece == "."@ && i > 0) {
        Ok(before)
    } else if piece == "."@ {
        Err(path + ": CurDir is not allowed in a policy path"@)
    } else if piece == ".."@ {
        Err(path + ": ParentDir is not allowed in a policy path"@)
    } else if text::begins(piece, "."@) {
        Err(path + ": names beginning with a dot are not accepted"@)
    } else {
        Ok(before.push(piece))
    }
}

/// The names that the pieces of a path come to, or what is wrong with the first that is not
/// accepted.
pub open spec fn names_of(path: Seq<char>, pieces: Seq<Seq<char>>) -> Result<
    Seq<Seq<char>>,
    Seq<char>,
>
    decreases pieces.len(),
{
    if pieces.len() == 0 {
        Ok(Seq::empty())
    } else {
        match names_of(path, pieces.drop_last()) {
            Ok(before) => step(path, before, pieces.last(), pieces.len() - 1),
            Err(why) => Err(why),
        }
    }
}

/// Where a file of this path may be written, relative to the tenant's folder, or why not.
pub open spec fn safe_of(path: Seq<char>) -> Result<Seq<char>, Seq<char>> {
    if path.len() == 0 {
        Err("a file with no name"@)
    } else if text::begins(path, "/"@) {
        Err(path + ": absolute paths are not accepted"@)
    } else {
        match names_of(path, text::pieces(path, '/')) {
            Err(why) => Err(why),
            Ok(names) => {
                let out = text::joined(names, "/"@);
                if names.len() > 4 {
                    Err(path + ": nested deeper than anybody will read"@)
                } else if is_ours(out) {
                    Err(path + " belongs to the host, not the tenant"@)
                } else {
                    Ok(out)
                }
            },
        }
    }
}

fn refusal(path: &str, why: &str) -> (r: String)
    ensures
        r@ == path@ + why@,
{
    let mut r = path.to_owned();
    r.append(why);
    r
}

/// Check a path from another machine before it becomes a path that is written to.
///
/// Subdirectories are allowed; everything that could leave the folder is not.
pub fn safe(path: &str) -> (r: Result<String, String>)
    ensures
        match r {
            Ok(out) => safe_of(path@) == Ok::<Seq<char>, Seq<char>>(out@),
            Err(why) => safe_of(path@) == Err::<Seq<char>, Seq<char>>(why@),
        },
{
    if path.is_empty() {
        return Err("a file with no name".to_owned());
    }
    if text::starts_with(path, "/") {
        return Err(refusal(path, ": absolute paths are not accepted"));
    }
    let pieces = text::split(path, '/');
    let ghost all = text::pieces(path@, '/');
    let mut names: Vec<String> = Vec::new();
    assert(text::texts(names@) =~= Seq::<Seq<char>>::empty());
    let mut i: usize = 0;
    while i < pieces.len()
        invariant
            i <= pieces@.len(),
            all == text::pieces(path@, '/'),
            text::texts(pieces@) == all,
            path@.len() > 0,
            !text::begins(path@, "/"@),
            names_of(path@, all.take(i as int)) == Ok::<Seq<Seq<char>>, Seq<char>>(
                text::texts(names@),
            ),
        decreases pieces@.len() - i,
    {
        let piece = pieces[i].as_str();
        proof {
            assert(all.take(i as int + 1).drop_last() =~= all.take(i as int));
            assert(all.take(i as int + 1).last() == text::texts(pieces@)[i as int]);
            assert(piece@ == all[i as int]);
        }
        let wrong = if piece.is_empty() || (text::same(piece, ".") && i > 0) {
            ""
        } else if text::same(piece, ".") {
            ": CurDir is not allowed in a policy path"
        } else if text::same(piece, "..") {
            ": ParentDir is not allowed in a policy path"
        } else if text::starts_with(piece, ".") {
            ": names beginning with a dot are not accepted"
        } else {
            let name = pieces[i].clone();
            assert(text::texts(names@.push(name)) =~= text::texts(names@).push(name@));
            names.push(name);
            ""
        };
        proof {
            reveal_strlit("");
            reveal_strlit(": CurDir is not allowed in a policy path");
            reveal_strlit(": ParentDir is not allowed in a policy path");
            reveal_strlit(": names beginning with a dot are not accepted");
        }
        if !wrong.is_empty() {
            let why = refusal(path, wrong);
            proof {
                lemma_refused(path@, all, i as int + 1, why@);
            }
            return Err(why);
        }
        i = i + 1;
    }
    assert(all.take(i as int) =~= all);
    if names.len() > 4 {
        return Err(refusal(path, ": nested deeper than anybody will read"));
    }
    let out = text::join(names.as_slice(), "/");
    if ours(out.as_str()) {
        return Err(refusal(path, " belongs to the host, not the tenant"));
    }
    Ok(out)
}

/// Once a piece is refused, so is the path.
proof fn lemma_refused(path: Seq<char>, pieces: Seq<Seq<char>>, k: int, why: Seq<char>)
    requires
        0 <= k <= pieces.len(),
        names_of(path, pieces.take(k)) == Err::<Seq<Seq<char>>, Seq<char>>(why),
    ensures
        names_of(path, pieces) == Err::<Seq<Seq<char>>, Seq<char>>(why),
    decreases pieces.len() - k,
{
    if k < pieces.len() {
        assert(pieces.take(k + 1).drop_last() =~= pieces.take(k));
        lemma_refused(path, pieces, k + 1, why);
    } else {
        assert(pieces.take(k) =~= pieces);
    }
}

// ---------------------------------------------------------------------------
// accepting
// ---------------------------------------------------------------------------

/// The files of an upload where they may be written, or what is wrong with the first that
/// may not be.
pub open spec fn placed(files: Seq<FileView>) -> Result<Seq<FileView>, Seq<char>>
    decreases files.len(),
{
    if files.len() == 0 {
        Ok(Seq::empty())
    } else {
        match placed(files.drop_last()) {
            Err(why) => Err(why),
            Ok(before) => match safe_of(files.last().path) {
                Err(why) => Err(why),
                Ok(path) => Ok(before.push(FileView { path, text: files.last().text })),
            },
        }
    }
}

/// How many bytes an upload holds.
pub open spec fn bytes(files: Seq<FileView>) -> nat
    decreases files.len(),
{
    if files.len() == 0 {
        0
    } else {
        bytes(files.drop_last()) + vstd::utf8::encode_utf8(files.last().text).len()
    }
}

/// What a file says once all are written: what was written last under its path.
pub open spec fn text_under(files: Seq<FileView>, path: Seq<char>) -> Option<Seq<char>>
    decreases files.len(),
{
    if files.len() == 0 {
        None
    } else if files.last().path == path {
        Some(files.last().text)
    } else {
        text_under(files.drop_last(), path)
    }
}

/// The folder that an upload makes: what was uploaded, and the starter policy where it
/// brought none.
pub open spec fn folder(files: Seq<FileView>) -> Seq<FileView> {
    match text_under(files, policy::FILE@) {
        Some(_) => files,
        None => files.push(FileView { path: policy::FILE@, text: policy::STARTER@ }),
    }
}

/// A folder that is ready to stand in place of what a tenant had written down.
#[derive(Debug)]
pub struct Accepted {
    /// To be written one after the other.
    pub files: Vec<PolicyFile>,
    /// The paths that were uploaded, in order.
    pub written: Vec<String>,
}

/// What an upload comes to.
pub open spec fn accepts(
    result: Result<Accepted, String>,
    files: Seq<FileView>,
    staging: Seq<char>,
) -> bool {
    if files.len() == 0 {
        &&& result matches Err(why)
        &&& why@ == "an upload with no files in it would leave nothing to weigh pleas against"@
    } else if placed(files) is Err {
        &&& result matches Err(why)
        &&& why@ == placed(files)->Err_0
    } else if bytes(files) > rulebook::MOST_BYTES {
        &&& result matches Err(why)
        &&& why@ == text::decimal_of(fleet::at_most(bytes(files), u64::MAX as nat))
            + " bytes, over the "@ + text::decimal_of(rulebook::MOST_BYTES as nat)
            + " that can be weighed at once"@
    } else {
        let made = folder(placed(files)->Ok_0);
        let size = rulebook::bytes(rulebook::rows(made));
        let grants = policy::grants_of(text_under(made, policy::FILE@)->Some_0);
        if grants is Err {
            &&& result matches Err(why)
            &&& why@ == "the uploaded policy could not be read: "@ + (
            "reading the grants block in "@ + path::join_of(staging, policy::FILE@) + ": "@
                + grants->Err_0)
        } else if size > rulebook::MOST_BYTES {
            &&& result matches Err(why)
            &&& why@ == "the uploaded folder could not be read: "@ + rulebook::too_big(
                fleet::at_most(size, u64::MAX as nat),
            )
        } else {
            &&& result matches Ok(accepted)
            &&& proto::files(accepted.files@) == made
            &&& text::in_order(text::texts(accepted.written@))
            &&& text::texts(accepted.written@).to_multiset() == placed(files)->Ok_0.map_values(
                |f: FileView| f.path,
            ).to_multiset()
        }
    }
}

/// Checks an upload, before any of it replaces anything: its paths, its size, and that what
/// it makes reads the way a plea will read it.
pub fn accept(staging: &str, upload: &Upload) -> (r: Result<Accepted, String>)
    ensures
        accepts(r, proto::files(upload.files@), staging@),
{
    let ghost all = proto::files(upload.files@);
    if upload.files.is_empty() {
        return Err(
            "an upload with no files in it would leave nothing to weigh pleas against".to_owned(),
        );
    }
    let mut files: Vec<PolicyFile> = Vec::new();
    let mut paths: Vec<String> = Vec::new();
    let mut total: u64 = 0;
    let mut i: usize = 0;
    proof {
        assert(proto::files(files@) =~= Seq::<FileView>::empty());
        assert(text::texts(paths@) =~= Seq::<FileView>::empty().map_values(|f: FileView| f.path));
    }
    while i < upload.files.len()
        invariant
            i <= upload.files@.len(),
            upload.files@.len() > 0,
            all == proto::files(upload.files@),
            placed(all.take(i as int)) == Ok::<Seq<FileView>, Seq<char>>(proto::files(files@)),
            text::texts(paths@) == proto::files(files@).map_values(|f: FileView| f.path),
            total == fleet::at_most(bytes(all.take(i as int)), u64::MAX as nat),
        decreases upload.files@.len() - i,
    {
        let file = &upload.files[i];
        proof {
            assert(all.take(i as int + 1).drop_last() =~= all.take(i as int));
            assert(all.take(i as int + 1).last() == file@);
        }
        let path = match safe(file.path.as_str()) {
            Ok(path) => path,
            Err(why) => {
                proof {
                    lemma_not_placed(all, i as int + 1, why@);
                }
                return Err(why);
            },
        };
        total = match total.checked_add(file.text.as_str().as_bytes().len() as u64) {
            Some(more) => more,
            None => u64::MAX,
        };
        let put = PolicyFile { path: path.clone(), text: file.text.clone() };
        proof {
            assert(proto::files(files@.push(put)) =~= proto::files(files@).push(put@));
            assert(text::texts(paths@.push(path)) =~= text::texts(paths@).push(path@));
            assert(proto::files(files@).push(put@).map_values(|f: FileView| f.path)
                =~= proto::files(files@).map_values(|f: FileView| f.path).push(path@));
        }
        files.push(put);
        paths.push(path);
        i = i + 1;
    }
    proof {
        assert(all.take(i as int) =~= all);
    }
    let ghost put = proto::files(files@);
    if total > rulebook::MOST_BYTES {
        let mut why = text::decimal(total);
        why.append(" bytes, over the ");
        why.append(text::decimal(rulebook::MOST_BYTES).as_str());
        why.append(" that can be weighed at once");
        return Err(why);
    }
    let own = last_text(files.as_slice(), policy::FILE);
    let policy_text = match own {
        Some(text) => text.to_owned(),
        None => {
            let starter = PolicyFile {
                path: policy::FILE.to_owned(),
                text: policy::STARTER.to_owned(),
            };
            proof {
                assert(proto::files(files@.push(starter)) =~= put.push(starter@));
                assert(put.push(starter@).last() == starter@);
            }
            files.push(starter);
            policy::STARTER.to_owned()
        },
    };
    let ghost made = proto::files(files@);
    assert(made == folder(put));
    assert(text_under(made, policy::FILE@) == Some(policy_text@));
    let checked = Policy::from_text(policy::path_in(staging), policy_text);
    let book = Rulebook::from_files(files.as_slice());
    if let Err(inner) = checked {
        let mut why = String::from_str("the uploaded policy could not be read: ");
        why.append(inner.as_str());
        return Err(why);
    }
    if let Err(inner) = book {
        let mut why = String::from_str("the uploaded folder could not be read: ");
        why.append(inner.as_str());
        return Err(why);
    }
    let written = text::sorted(paths.as_slice());
    Ok(Accepted { files, written })
}

/// Once a file may not be written, nor may the upload.
proof fn lemma_not_placed(files: Seq<FileView>, k: int, why: Seq<char>)
    requires
        0 <= k <= files.len(),
        placed(files.take(k)) == Err::<Seq<FileView>, Seq<char>>(why),
    ensures
        placed(files) == Err::<Seq<FileView>, Seq<char>>(why),
    decreases files.len() - k,
{
    if k < files.len() {
        assert(files.take(k + 1).drop_last() =~= files.take(k));
        lemma_not_placed(files, k + 1, why);
    } else {
        assert(files.take(k) =~= files);
    }
}

fn last_text<'a>(files: &'a [PolicyFile], path: &str) -> (r: Option<&'a str>)
    ensures
        match r {
            Some(text) => text_under(proto::files(files@), path@) == Some(text@),
            None => text_under(proto::files(files@), path@) is None,
        },
{
    let ghost all = proto::files(files@);
    let mut i: usize = files.len();
    assert(all.take(i as int) =~= all);
    while i > 0
        invariant
            i <= files@.len(),
            all == proto::files(files@),
            text_under(all, path@) == text_under(all.take(i as int), path@),
        decreases i,
    {
        proof {
            assert(all.take(i as int).drop_last() =~= all.take(i as int - 1));
            assert(all.take(i as int).last() == files@[i as int - 1]@);
        }
        if text::same(files[i - 1].path.as_str(), path) {
            return Some(files[i - 1].text.as_str());
        }
        i = i - 1;
    }
    None
}

// ---------------------------------------------------------------------------
// gathering
// ---------------------------------------------------------------------------

/// Is a file of this path, relative to the folder, sent? The same files that the controller
/// would read: nothing hidden, nothing of the host's, nothing deeper than would be accepted,
/// and none of the policy's own tests.
pub open spec fn is_sent(path: Seq<char>) -> bool {
    let parts = text::pieces(path, '/');
    &&& parts.len() - 1 <= 3
    &&& forall|i: int| 0 <= i < parts.len() ==> is_sendable(#[trigger] parts[i])
    &&& forall|i: int| 0 <= i < parts.len() - 1 ==> #[trigger] parts[i] != policytest::DIR@
    &&& rulebook::is_readable(parts.last())
}

/// May a file or a directory of this name be sent?
pub open spec fn is_sendable(name: Seq<char>) -> bool {
    name.len() > 0 && !text::begins(name, "."@) && !is_ours(name)
}

pub fn sent(path: &str) -> (r: bool)
    ensures
        r == is_sent(path@),
{
    let parts = text::split(path, '/');
    let ghost all = text::pieces(path@, '/');
    assert(text::texts(parts@) == all);
    proof {
        rulebook::lemma_pieces_some(path@, '/');
    }
    if parts.len() - 1 > 3 {
        return false;
    }
    let mut i: usize = 0;
    while i < parts.len()
        invariant
            i <= parts@.len(),
            text::texts(parts@) == all,
            all == text::pieces(path@, '/'),
            forall|k: int| 0 <= k < i ==> is_sendable(#[trigger] all[k]),
            forall|k: int| 0 <= k < i && k < all.len() - 1 ==> #[trigger] all[k] != policytest::DIR@,
        decreases parts@.len() - i,
    {
        let name = parts[i].as_str();
        assert(all[i as int] == name@);
        if name.is_empty() || text::starts_with(name, ".") || ours(name) {
            assert(!is_sendable(all[i as int]));
            return false;
        }
        if i + 1 < parts.len() && text::same(name, policytest::DIR) {
            return false;
        }
        i = i + 1;
    }
    assert(all.last() == parts@[parts@.len() - 1]@);
    rulebook::readable(parts[parts.len() - 1].as_str())
}

/// The files that are sent, each under its path.
pub open spec fn satchel(files: Seq<FileView>) -> Map<Seq<char>, FileView>
    decreases files.len(),
{
    if files.len() == 0 {
        Map::empty()
    } else {
        let before = satchel(files.drop_last());
        if is_sent(files.last().path) {
            before.insert(files.last().path, files.last())
        } else {
            before
        }
    }
}

/// What comes of collecting a folder to send.
pub open spec fn gathers(
    r: Result<Upload, String>,
    dir: Seq<char>,
    files: Seq<FileView>,
) -> bool {
    let rows = table::row_of(satchel(files));
    if rows.len() == 0 {
        &&& r matches Err(why)
        &&& why@ == dir + " has no policy files in it"@
    } else {
        &&& r matches Ok(upload)
        &&& proto::files(upload.files@) == rows.map_values(|e: (Seq<char>, FileView)| e.1)
    }
}

/// Collects a folder to send, in the order of its paths.
pub fn gather(dir: &str, files: &[PolicyFile]) -> (r: Result<Upload, String>)
    ensures
        gathers(r, dir@, proto::files(files@)),
{
    let mut found: Table<PolicyFile> = Table::new();
    let ghost all = proto::files(files@);
    let mut i: usize = 0;
    while i < files.len()
        invariant
            i <= files@.len(),
            all == proto::files(files@),
            found.dict() == satchel(all.take(i as int)),
        decreases files@.len() - i,
    {
        proof {
            assert(all.take(i as int + 1).drop_last() =~= all.take(i as int));
            assert(all.take(i as int + 1).last() == files@[i as int]@);
        }
        if sent(files[i].path.as_str()) {
            found.insert(files[i].path.clone(), files[i].copied());
        }
        i = i + 1;
    }
    assert(all.take(i as int) =~= all);
    let many = found.len();
    let ghost rows = found@;
    if many == 0 {
        return Err(refusal(dir, " has no policy files in it"));
    }
    let mut sent: Vec<PolicyFile> = Vec::new();
    let mut k: usize = 0;
    while k < many
        invariant
            k <= many,
            many == rows.len(),
            rows == found@,
            proto::files(sent@) == rows.take(k as int).map_values(|e: (Seq<char>, FileView)| e.1),
        decreases many - k,
    {
        let file = found.value_at(k).copied();
        proof {
            assert(rows.take(k as int + 1) =~= rows.take(k as int).push(rows[k as int]));
            assert(rows.take(k as int + 1).map_values(|e: (Seq<char>, FileView)| e.1)
                =~= rows.take(k as int).map_values(|e: (Seq<char>, FileView)| e.1).push(file@));
            assert(proto::files(sent@.push(file)) =~= proto::files(sent@).push(file@));
        }
        sent.push(file);
        k = k + 1;
    }
    assert(rows.take(k as int) =~= rows);
    Ok(Upload { files: sent })
}

// ---------------------------------------------------------------------------
// what holds of every upload
// ---------------------------------------------------------------------------

/// A name that a path may be made of: there is something to it, it hides nothing, and it
/// leads nowhere else.
pub open spec fn is_plain(name: Seq<char>) -> bool {
    name.len() > 0 && !text::begins(name, "."@) && text::lacks(name, '/')
}

proof fn lemma_names_plain(path: Seq<char>, pieces: Seq<Seq<char>>)
    requires
        names_of(path, pieces) is Ok,
        forall|i: int| 0 <= i < pieces.len() ==> text::lacks(#[trigger] pieces[i], '/'),
    ensures
        forall|i: int|
            0 <= i < names_of(path, pieces)->Ok_0.len() ==> is_plain(
                #[trigger] names_of(path, pieces)->Ok_0[i],
            ),
    decreases pieces.len(),
{
    if pieces.len() > 0 {
        let less = pieces.drop_last();
        lemma_names_plain(path, less);
        assert(text::lacks(pieces.last(), '/'));
    }
}

/// A path that was accepted stays inside the folder: it is at most four plain names, none of
/// them a way out of it, and none of the host's files.
pub proof fn law_a_safe_path_stays_in_the_folder(path: Seq<char>)
    requires
        safe_of(path) is Ok,
    ensures
        ({
            let out = safe_of(path)->Ok_0;
            exists|names: Seq<Seq<char>>| {
                &&& out == text::joined(names, "/"@)
                &&& names.len() <= 4
                &&& forall|i: int| 0 <= i < names.len() ==> is_plain(#[trigger] names[i])
                &&& !is_ours(out)
            }
        }),
{
    text::lemma_pieces_lack(path, '/');
    let pieces = text::pieces(path, '/');
    lemma_names_plain(path, pieces);
    let names = names_of(path, pieces)->Ok_0;
    assert(safe_of(path)->Ok_0 == text::joined(names, "/"@) && names.len() <= 4);
}

/// A path that could leave the folder is refused: one that starts at the root, or that has a
/// `..` anywhere in it.
pub proof fn law_a_path_that_could_leave_the_folder_is_refused(path: Seq<char>, i: int)
    requires
        text::begins(path, "/"@) || (0 <= i < text::pieces(path, '/').len() && text::pieces(
            path,
            '/',
        )[i] == ".."@),
    ensures
        safe_of(path) is Err,
{
    reveal_strlit("..");
    reveal_strlit(".");
    if !text::begins(path, "/"@) {
        lemma_way_out(path, text::pieces(path, '/'), i);
    }
}

proof fn lemma_way_out(path: Seq<char>, pieces: Seq<Seq<char>>, i: int)
    requires
        0 <= i < pieces.len(),
        pieces[i] == ".."@,
    ensures
        names_of(path, pieces) is Err,
    decreases pieces.len(),
{
    reveal_strlit("..");
    reveal_strlit(".");
    if i < pieces.len() - 1 {
        lemma_way_out(path, pieces.drop_last(), i);
    } else {
        assert(pieces.last() == ".."@);
        assert(".."@.len() == 2 && "."@.len() == 1);
    }
}

proof fn lemma_plain_names(path: Seq<char>, pieces: Seq<Seq<char>>)
    requires
        forall|i: int|
            0 <= i < pieces.len() ==> (#[trigger] pieces[i]).len() > 0 && !text::begins(
                pieces[i],
                "."@,
            ),
    ensures
        names_of(path, pieces) == Ok::<Seq<Seq<char>>, Seq<char>>(pieces),
    decreases pieces.len(),
{
    reveal_strlit(".");
    reveal_strlit("..");
    if pieces.len() > 0 {
        lemma_plain_names(path, pieces.drop_last());
        let last = pieces.last();
        assert(pieces[pieces.len() - 1] == last);
        assert(!text::begins(last, "."@));
        if last == "."@ {
            assert(last.take(1) =~= "."@);
        }
        if last == ".."@ {
            assert(last.take(1) =~= "."@);
        }
        assert(pieces.drop_last().push(last) =~= pieces);
    } else {
        assert(pieces =~= Seq::<Seq<char>>::empty());
    }
}

/// Cutting a path and joining it again gives the path.
proof fn lemma_joined_pieces(s: Seq<char>, c: char, between: Seq<char>)
    requires
        between == seq![c],
    ensures
        text::joined(text::pieces(s, c), between) == s,
    decreases s.len(),
{
    text::lemma_place_of(s, c);
    let k = text::place_of(s, c);
    if k < s.len() {
        let rest = s.skip(k + 1);
        lemma_joined_pieces(rest, c, between);
        rulebook::lemma_pieces_some(rest, c);
        lemma_joined_front(s.take(k), text::pieces(rest, c), between);
        assert(s =~= s.take(k) + between + rest);
    } else {
        assert(text::pieces(s, c) =~= seq![s]);
    }
}

proof fn lemma_joined_front(first: Seq<char>, rest: Seq<Seq<char>>, between: Seq<char>)
    requires
        rest.len() > 0,
    ensures
        text::joined(seq![first] + rest, between) == first + between + text::joined(rest, between),
    decreases rest.len(),
{
    let all = seq![first] + rest;
    if rest.len() == 1 {
        assert(all.drop_last() =~= seq![first]);
        assert(text::joined(seq![first], between) == first);
    } else {
        assert(all.drop_last() =~= seq![first] + rest.drop_last());
        lemma_joined_front(first, rest.drop_last(), between);
        let inner = text::joined(rest.drop_last(), between);
        assert((first + between + inner) + between + rest.last() =~= first + between + (inner
            + between + rest.last()));
    }
}

/// What is gathered here is accepted there, under the path it was gathered under.
pub proof fn law_what_is_sent_is_accepted(path: Seq<char>)
    requires
        is_sent(path),
    ensures
        safe_of(path) == Ok::<Seq<char>, Seq<char>>(path),
{
    reveal_strlit("/");
    assert("/"@ =~= seq!['/']);
    let pieces = text::pieces(path, '/');
    rulebook::lemma_pieces_some(path, '/');
    lemma_joined_pieces(path, '/', "/"@);
    assert forall|i: int| 0 <= i < pieces.len() implies (#[trigger] pieces[i]).len() > 0
        && !text::begins(pieces[i], "."@) by {
        assert(is_sendable(pieces[i]));
    }
    lemma_plain_names(path, pieces);
    assert(is_sendable(pieces[0]));
    text::lemma_place_of(path, '/');
    assert(path.len() > 0) by {
        if path.len() == 0 {
            assert(pieces =~= seq![path]);
        }
    }
    assert(!text::begins(path, "/"@)) by {
        if text::begins(path, "/"@) {
            assert(path.take(1)[0] == '/');
            assert(path[0] == '/');
            assert(text::place_of(path, '/') == 0);
            assert(pieces[0] == path.take(0));
        }
    }
    assert(!is_ours(path)) by {
        if is_ours(path) {
            reveal_strlit("tenant.toml");
            reveal_strlit("spend.log");
            text::lemma_place_is(path, '/', path.len() as int);
            assert(pieces =~= seq![path]);
        }
    }
}

/// A path of one to four names, none of them hidden, is accepted as it stands, unless it is one
/// of the two that the host keeps for itself; one of more names is refused.
pub proof fn law_a_path_of_plain_names_is_accepted(names: Seq<Seq<char>>)
    requires
        names.len() > 0,
        forall|i: int|
            0 <= i < names.len() ==> {
                &&& (#[trigger] names[i]).len() > 0
                &&& names[i][0] != '.'
                &&& text::lacks(names[i], '/')
            },
    ensures
        ({
            let path = text::joined(names, "/"@);
            safe_of(path) is Ok <==> names.len() <= 4 && path != "tenant.toml"@ && path
                != "spend.log"@
        }),
        safe_of(text::joined(names, "/"@)) matches Ok(out) ==> out == text::joined(names, "/"@),
{
    reveal_strlit("/");
    reveal_strlit(".");
    assert("/"@ =~= seq!['/']);
    let path = text::joined(names, "/"@);
    assert forall|i: int| 0 <= i < names.len() implies text::lacks(#[trigger] names[i], '/') by {
        assert(names[i].len() > 0);
    }
    text::lemma_pieces_of_joined(names, '/', "/"@);
    assert forall|i: int| 0 <= i < names.len() implies (#[trigger] names[i]).len() > 0
        && !text::begins(names[i], "."@) by {
        if text::begins(names[i], "."@) {
            assert(names[i].take(1)[0] == names[i][0]);
        }
    }
    lemma_plain_names(path, names);
    text::lemma_place_of(path, '/');
    assert(names[0].len() > 0);
    assert(path.len() > 0) by {
        if path.len() == 0 {
            assert(text::pieces(path, '/') =~= seq![path]);
            assert(names[0] == path);
        }
    }
    assert(!text::begins(path, "/"@)) by {
        if text::begins(path, "/"@) {
            assert(path.take(1)[0] == '/');
            assert(path[0] == '/');
            assert(text::place_of(path, '/') == 0);
            assert(text::pieces(path, '/')[0] == path.take(0));
        }
    }
}

/// What the host keeps for itself is never taken from an upload, nor is a file without a name.
pub proof fn law_the_hosts_own_files_are_refused()
    ensures
        safe_of("tenant.toml"@) is Err,
        safe_of("spend.log"@) is Err,
        safe_of(Seq::empty()) is Err,
        is_ours("tenant.toml"@),
        is_ours("spend.log"@),
{
    reveal_strlit("tenant.toml");
    reveal_strlit("spend.log");
    reveal_strlit("/");
    let a = seq!["tenant.toml"@];
    assert(text::joined(a, "/"@) == "tenant.toml"@);
    law_a_path_of_plain_names_is_accepted(a);
    let b = seq!["spend.log"@];
    assert(text::joined(b, "/"@) == "spend.log"@);
    law_a_path_of_plain_names_is_accepted(b);
}

/// A name that hides is refused wherever in a path it stands.
pub proof fn law_a_hidden_name_is_refused(path: Seq<char>, i: int)
    requires
        0 <= i < text::pieces(path, '/').len(),
        text::pieces(path, '/')[i].len() > 1,
        text::pieces(path, '/')[i][0] == '.',
    ensures
        safe_of(path) is Err,
{
    lemma_hidden(path, text::pieces(path, '/'), i);
}

proof fn lemma_hidden(path: Seq<char>, pieces: Seq<Seq<char>>, i: int)
    requires
        0 <= i < pieces.len(),
        pieces[i].len() > 1,
        pieces[i][0] == '.',
    ensures
        names_of(path, pieces) is Err,
    decreases pieces.len(),
{
    reveal_strlit(".");
    if i < pieces.len() - 1 {
        lemma_hidden(path, pieces.drop_last(), i);
    } else {
        assert(pieces.last().take(1) =~= "."@);
    }
}

proof fn lemma_placed(files: Seq<FileView>)
    ensures
        placed(files) is Ok <==> forall|i: int|
            0 <= i < files.len() ==> safe_of((#[trigger] files[i]).path) is Ok,
        placed(files) matches Ok(list) ==> {
            &&& list.len() == files.len()
            &&& forall|i: int|
                0 <= i < files.len() ==> {
                    &&& (#[trigger] list[i]).text == files[i].text
                    &&& safe_of(files[i].path) == Ok::<Seq<char>, Seq<char>>(list[i].path)
                }
        },
    decreases files.len(),
{
    if files.len() > 0 {
        let less = files.drop_last();
        lemma_placed(less);
        assert(files[files.len() - 1] == files.last());
        if placed(less) is Err {
            let i = choose|i: int| 0 <= i < less.len() && safe_of((#[trigger] less[i]).path) is Err;
            assert(files[i] == less[i]);
        } else {
            assert forall|i: int| 0 <= i < less.len() implies safe_of((#[trigger] files[i]).path)
                is Ok by {
                assert(files[i] == less[i]);
            }
        }
    }
}

/// An upload is taken exactly where there is something in it, every path in it may be written,
/// it is no more than can be weighed, and what it makes reads as a policy. Then everything in it
/// is to be written, as it was sent, and nothing else but the starter policy where it brought
/// none.
pub proof fn law_an_upload_is_taken_whole_or_not_at_all(
    result: Result<Accepted, String>,
    files: Seq<FileView>,
    staging: Seq<char>,
    i: int,
)
    requires
        accepts(result, files, staging),
    ensures
        files.len() == 0 ==> result is Err,
        bytes(files) > 256 * 1024 ==> result is Err,
        0 <= i < files.len() && safe_of(files[i].path) is Err ==> result is Err,
        result matches Ok(accepted) ==> {
            let out = proto::files(accepted.files@);
            &&& out.len() == files.len() || out.len() == files.len() + 1
            &&& 0 <= i < files.len() ==> {
                &&& out[i].text == files[i].text
                &&& safe_of(files[i].path) == Ok::<Seq<char>, Seq<char>>(out[i].path)
            }
            &&& out.len() == files.len() + 1 ==> {
                &&& out.last().path == "policy.md"@
                &&& text_under(out.drop_last(), "policy.md"@) is None
            }
            &&& text_under(out, "policy.md"@) is Some
            &&& policy::grants_of(text_under(out, "policy.md"@)->0) is Ok
            &&& rulebook::bytes(rulebook::rows(out)) <= 256 * 1024
        },
        files.len() > 0 && (forall|k: int|
            0 <= k < files.len() ==> safe_of((#[trigger] files[k]).path) is Ok) && bytes(files)
            <= 256 * 1024 ==> {
            let made = folder(placed(files)->Ok_0);
            result is Ok <==> policy::grants_of(text_under(made, "policy.md"@)->0) is Ok
                && rulebook::bytes(rulebook::rows(made)) <= 256 * 1024
        },
{
    lemma_placed(files);
    if placed(files) is Ok {
        let list = placed(files)->Ok_0;
        let starter = FileView { path: policy::FILE@, text: policy::STARTER@ };
        assert(list.push(starter).drop_last() =~= list);
        assert(list.push(starter).last() == starter);
    }
}

/// The size of an upload is that of every text in it, in bytes.
pub proof fn law_every_byte_of_an_upload_counts(files: Seq<FileView>, file: FileView)
    ensures
        bytes(Seq::empty()) == 0,
        bytes(files.push(file)) == bytes(files) + vstd::utf8::encode_utf8(file.text).len(),
{
    assert(files.push(file).drop_last() =~= files);
}

/// A file is sent exactly where it is text by its name, at most four names deep, in no hidden
/// folder and not hidden itself, none of the host's, and none of the policy's own tests.
pub proof fn law_a_file_is_sent_where_it_would_be_read(names: Seq<Seq<char>>)
    requires
        names.len() > 0,
        forall|i: int| 0 <= i < names.len() ==> text::lacks(#[trigger] names[i], '/'),
    ensures
        is_sent(text::joined(names, "/"@)) <==> {
            &&& names.len() <= 4
            &&& forall|i: int|
                0 <= i < names.len() ==> {
                    &&& (#[trigger] names[i]).len() > 0
                    &&& names[i][0] != '.'
                    &&& names[i] != "tenant.toml"@
                    &&& names[i] != "spend.log"@
                    &&& i < names.len() - 1 ==> names[i] != "policy-tests"@
                }
            &&& rulebook::is_readable(names.last())
        },
{
    reveal_strlit("/");
    reveal_strlit(".");
    assert("/"@ =~= seq!['/']);
    let path = text::joined(names, "/"@);
    text::lemma_pieces_of_joined(names, '/', "/"@);
    assert forall|i: int| 0 <= i < names.len() implies (is_sendable(#[trigger] names[i])
        <==> names[i].len() > 0 && names[i][0] != '.' && names[i] != "tenant.toml"@ && names[i]
        != "spend.log"@) by {
        if names[i].len() > 0 {
            assert(names[i].take(1)[0] == names[i][0]);
            if names[i][0] == '.' {
                assert(names[i].take(1) =~= "."@);
            }
        }
    }
    if is_sent(path) {
        assert forall|i: int| 0 <= i < names.len() implies {
            &&& (#[trigger] names[i]).len() > 0
            &&& names[i][0] != '.'
            &&& names[i] != "tenant.toml"@
            &&& names[i] != "spend.log"@
            &&& i < names.len() - 1 ==> names[i] != "policy-tests"@
        } by {
            assert(is_sendable(names[i]));
        }
    } else if names.len() <= 4 && rulebook::is_readable(names.last()) {
        if exists|i: int| 0 <= i < names.len() && !is_sendable(#[trigger] names[i]) {
            let i = choose|i: int| 0 <= i < names.len() && !is_sendable(#[trigger] names[i]);
            assert(names[i].len() == 0 || names[i][0] == '.' || names[i] == "tenant.toml"@
                || names[i] == "spend.log"@);
        } else {
            let i = choose|i: int|
                0 <= i < names.len() - 1 && #[trigger] names[i] == policytest::DIR@;
            assert(names[i] == "policy-tests"@);
        }
    }
}

/// Every file of a folder that is sent is in what is gathered, under its path and as it says,
/// and nothing else is; where there is none, nothing is gathered.
pub proof fn law_everything_sent_is_gathered(
    r: Result<Upload, String>,
    dir: Seq<char>,
    files: Seq<FileView>,
    i: int,
)
    requires
        gathers(r, dir, files),
        0 <= i < files.len(),
        is_sent(files[i].path),
        forall|k: int| i < k < files.len() ==> (#[trigger] files[k]).path != files[i].path,
    ensures
        r matches Ok(upload) && proto::files(upload.files@).contains(files[i]),
        r matches Ok(upload) ==> forall|k: int|
            0 <= k < upload.files@.len() ==> files.contains(
                #[trigger] proto::files(upload.files@)[k],
            ) && is_sent(proto::files(upload.files@)[k].path),
{
    lemma_satchel(files, i);
    let all = satchel(files);
    table::lemma_row_of(all);
    let rows = table::row_of(all);
    assert(table::has_key(rows, files[i].path));
    let k = choose|k: int| 0 <= k < rows.len() && #[trigger] rows[k].0 == files[i].path;
    table::lemma_entry(rows, k);
    let out = rows.map_values(|e: (Seq<char>, FileView)| e.1);
    assert(out[k] == files[i]);
    assert forall|k: int| 0 <= k < out.len() implies files.contains(#[trigger] out[k]) && is_sent(
        out[k].path,
    ) by {
        table::lemma_entry(rows, k);
        lemma_satchel_holds(files, rows[k].0);
    }
    if let Ok(upload) = r {
        assert(proto::files(upload.files@).len() == upload.files@.len());
    }
}

proof fn lemma_satchel(files: Seq<FileView>, i: int)
    requires
        0 <= i < files.len(),
        is_sent(files[i].path),
        forall|k: int| i < k < files.len() ==> (#[trigger] files[k]).path != files[i].path,
    ensures
        satchel(files).dom().finite(),
        satchel(files).dom().contains(files[i].path),
        satchel(files)[files[i].path] == files[i],
    decreases files.len(),
{
    lemma_satchel_finite(files.drop_last());
    if i < files.len() - 1 {
        let less = files.drop_last();
        assert(files[files.len() - 1].path != files[i].path);
        assert forall|k: int| i < k < less.len() implies (#[trigger] less[k]).path != less[i].path by {
            assert(less[k] == files[k]);
        }
        lemma_satchel(less, i);
    }
}

proof fn lemma_satchel_finite(files: Seq<FileView>)
    ensures
        satchel(files).dom().finite(),
    decreases files.len(),
{
    if files.len() > 0 {
        lemma_satchel_finite(files.drop_last());
    }
}

proof fn lemma_satchel_holds(files: Seq<FileView>, path: Seq<char>)
    requires
        satchel(files).dom().contains(path),
    ensures
        files.contains(satchel(files)[path]),
        satchel(files)[path].path == path,
        is_sent(path),
    decreases files.len(),
{
    if files.len() > 0 {
        let less = files.drop_last();
        if is_sent(files.last().path) && files.last().path == path {
            assert(files[files.len() - 1] == files.last());
        } else {
            lemma_satchel_holds(less, path);
            let k = less.index_of(satchel(less)[path]);
            assert(files[k] == less[k]);
        }
    }
}

/// A piece of a path that says nothing adds nothing: an empty one, and a `.` but at the start,
/// where it is refused.
pub proof fn law_an_empty_piece_adds_nothing(path: Seq<char>, pieces: Seq<Seq<char>>)
    requires
        pieces.len() > 0,
        names_of(path, pieces) is Ok,
    ensures
        names_of(path, pieces.push(Seq::empty())) == names_of(path, pieces),
        names_of(path, pieces.push("."@)) == names_of(path, pieces),
        names_of(path, seq!["."@]) is Err,
        names_of(path, pieces.push(".."@)) is Err,
{
    reveal_strlit(".");
    reveal_strlit("..");
    let empty = Seq::<char>::empty();
    assert(pieces.push(empty).drop_last() =~= pieces);
    assert(pieces.push("."@).drop_last() =~= pieces);
    assert(pieces.push(".."@).drop_last() =~= pieces);
    assert(seq!["."@].drop_last() =~= Seq::<Seq<char>>::empty());
    assert(".."@.len() == 2);
}

} // verus!
