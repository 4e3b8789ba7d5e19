//! Names of files, as text: directories are parted by `/`.

use vstd::prelude::*;
use vstd::string::*;

use crate::text;

verus! {

/// `name` as seen from `root`. A name that starts at `/` is seen from nowhere else.
pub open spec fn join_of(root: Seq<char>, name: Seq<char>) -> Seq<char> {
    if text::begins(name, "/"@) {
        name
    } else if root.len() == 0 || text::ends(root, "/"@) {
        root + name
    } else {
        root + "/"@ + name
    }
}

/// What every name in a folder begins with. The folder without a name is where one stands.
pub open spec fn inside(dir: Seq<char>) -> Seq<char> {
    if dir.len() == 0 || text::ends(dir, "/"@) {
        dir
    } else {
        dir + "/"@
    }
}

pub fn join(root: &str, name: &str) -> (r: String)
    ensures
        r@ == join_of(root@, name@),
{
    if text::starts_with(name, "/") {
        return name.to_owned();
    }
    let mut r = root.to_owned();
    if root.unicode_len() != 0 && !text::ends_with(root, "/") {
        r.append("/");
    }
    r.append(name);
    r
}

/// Names without those at the end that name nothing: empty ones, and `.`.
pub open spec fn to_a_name(names: Seq<Seq<char>>) -> Seq<Seq<char>>
    decreases names.len(),
{
    if names.len() > 0 && (names.last().len() == 0 || names.last() == "."@) {
        to_a_name(names.drop_last())
    } else {
        names
    }
}

/// What the file at a path is called, where the path ends in a name.
pub open spec fn file_name_of(path: Seq<char>) -> Option<Seq<char>> {
    let names = to_a_name(text::pieces(path, '/'));
    if names.len() == 0 || names.last() == ".."@ {
        None
    } else {
        Some(names.last())
    }
}

pub fn file_name(path: &str) -> (r: Option<String>)
    ensures
        match r {
            Some(name) => file_name_of(path@) == Some(name@),
            None => file_name_of(path@) is None,
        },
{
    let names = text::split(path, '/');
    let ghost all = text::texts(names@);
    let mut to: usize = names.len();
    assert(all.take(to as int) =~= all);
    while to > 0 && (names[to - 1].as_str().is_empty() || text::same(names[to - 1].as_str(), "."))
        invariant
            all == text::texts(names@),
            to <= names@.len(),
            to_a_name(all) == to_a_name(all.take(to as int)),
        decreases to,
    {
        assert(all.take(to as int).last() == names@[to as int - 1]@);
        assert(all.take(to as int).drop_last() =~= all.take(to as int - 1));
        to = to - 1;
    }
    if to == 0 {
        return None;
    }
    assert(all.take(to as int).last() == names@[to as int - 1]@);
    assert(to_a_name(all) == all.take(to as int));
    if text::same(names[to - 1].as_str(), "..") {
        return None;
    }
    Some(names[to - 1].clone())
}

proof fn lemma_to_a_name(names: Seq<Seq<char>>)
    ensures
        to_a_name(names).len() <= names.len(),
        to_a_name(names) == names.take(to_a_name(names).len() as int),
        to_a_name(names).len() > 0 ==> to_a_name(names).last().len() > 0 && to_a_name(names).last()
            != "."@,
    decreases names.len(),
{
    if names.len() > 0 && (names.last().len() == 0 || names.last() == "."@) {
        lemma_to_a_name(names.drop_last());
        let n = to_a_name(names).len() as int;
        assert(names.drop_last().take(n) =~= names.take(n));
    } else {
        assert(names.take(names.len() as int) =~= names);
    }
}

/// What a file is called is a name of its own folder: it goes neither up nor down.
pub proof fn law_a_file_name_stays_in_its_folder(path: Seq<char>, dir: Seq<char>)
    requires
        file_name_of(path) is Some,
    ensures
        text::lacks(file_name_of(path)->0, '/'),
        file_name_of(path)->0 != ".."@,
        file_name_of(path)->0 != "."@,
        file_name_of(path)->0.len() > 0,
        join_of(dir, file_name_of(path)->0) == inside(dir) + file_name_of(path)->0,
{
    let all = text::pieces(path, '/');
    lemma_to_a_name(all);
    let n = to_a_name(all).len();
    let name = file_name_of(path)->0;
    assert(name == all[n - 1]);
    text::lemma_pieces_lack(path, '/');
    reveal_strlit("/");
    if text::begins(name, "/"@) {
        assert(name[0] == name.take(1)[0]);
    }
}

/// A name is looked for below the folder it is given for, with one `/` between.
pub proof fn law_a_name_is_looked_for_in_its_folder(root: Seq<char>, name: Seq<char>)
    requires
        name.len() > 0 ==> name[0] != '/',
    ensures
        root.len() > 0 && root.last() != '/' ==> join_of(root, name) == root + "/"@ + name,
        root.len() > 0 && root.last() == '/' ==> join_of(root, name) == root + name,
        root.len() == 0 ==> join_of(root, name) == name,
{
    reveal_strlit("/");
    if text::begins(name, "/"@) {
        assert(name.take(1)[0] == name[0]);
    }
    if root.len() > 0 {
        assert(root.skip(root.len() - 1)[0] == root.last());
        assert(root.last() == '/' ==> root.skip(root.len() - 1) =~= "/"@);
    }
    assert(root.len() == 0 ==> root + name =~= name);
}

/// The file at a path is called what stands behind the last `/` of it.
pub proof fn law_a_file_is_called_by_its_last_name(dir: Seq<char>, name: Seq<char>)
    requires
        name.len() > 0,
        text::lacks(name, '/'),
        name != "."@,
        name != ".."@,
    ensures
        file_name_of(name) == Some(name),
        file_name_of(dir + "/"@ + name) == Some(name),
        file_name_of(dir + "/"@ + name + "/"@) == Some(name),
        file_name_of(dir + "/.."@) is None,
{
    reveal_strlit("/");
    reveal_strlit(".");
    reveal_strlit("..");
    reveal_strlit("/..");
    text::lemma_pieces_lack(name, '/');
    text::lemma_place_is(name, '/', name.len() as int);
    assert(text::pieces(name, '/') =~= seq![name]);
    text::lemma_pieces_last(dir, '/', name);
    text::lemma_pieces_last(dir, '/', ".."@);
    let whole = dir + "/"@ + name;
    assert(whole =~= dir + seq!['/'] + name);
    assert(dir + "/.."@ =~= dir + seq!['/'] + ".."@);
    text::lemma_pieces_last(whole, '/', Seq::empty());
    assert(whole + "/"@ =~= whole + seq!['/'] + Seq::<char>::empty());
    let names = text::pieces(whole, '/');
    assert(names.last() == name);
    assert((names + seq![Seq::<char>::empty()]).drop_last() =~= names);
}

} // verus!
