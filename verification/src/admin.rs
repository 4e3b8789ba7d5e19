//! Admins: the devices allowed to look at and change how this controller runs.
//!
//! A third class beside tenants and workers: "a device of our own organisation" is far too
//! broad, since a worker is one of those. So an admin is paired explicitly: its key is
//! written down here, by hand, on the controller.

use vstd::prelude::*;
use vstd::string::*;

use crate::book;
use crate::fleet;
use crate::path;
use crate::text;

verus! {

pub const FILE: &'static str = "admins.toml";

#[derive(Debug, Clone)]
pub struct Admin {
    /// What to call them in a log. Local to this controller.
    pub name: String,
    /// The device key that must be on the other end of the connection.
    pub key: String,
    pub note: Option<String>,
}

#[verifier::ext_equal]
pub struct AdminView {
    pub name: Seq<char>,
    pub key: Seq<char>,
    pub note: Option<Seq<char>>,
}

impl View for Admin {
    type V = AdminView;

    open spec fn view(&self) -> AdminView {
        AdminView { name: self.name@, key: self.key@, note: fleet::held_text(self.note) }
    }
}

#[derive(Debug, Clone)]
pub struct Admins {
    pub list: Vec<Admin>,
}

impl View for Admins {
    type V = Seq<(Seq<char>, AdminView)>;

    /// The admins, each under the key that proves them.
    open spec fn view(&self) -> Seq<(Seq<char>, AdminView)> {
        self.list@.map_values(|a: Admin| (a.key@, a@))
    }
}

impl Default for Admins {
    /// Nobody: an admin has to be added deliberately, never acquired by accident.
    fn default() -> (r: Self)
        ensures
            r@ == Seq::<(Seq<char>, AdminView)>::empty(),
    {
        let r = Admins { list: Vec::new() };
        assert(r@ =~= Seq::<(Seq<char>, AdminView)>::empty());
        r
    }
}

/// What comes of adding an admin: one whose key or name is taken, or whose key is none, is
/// refused, and then nothing changes.
pub open spec fn adds(
    before: Seq<(Seq<char>, AdminView)>,
    after: Seq<(Seq<char>, AdminView)>,
    admin: AdminView,
    decodes: bool,
    result: Result<(), Seq<char>>,
) -> bool {
    if book::knows(before, admin.key) {
        &&& after == before
        &&& result == Err::<(), Seq<char>>("that key is already an admin"@)
    } else if has_name(before, admin.name) {
        &&& after == before
        &&& result == Err::<(), Seq<char>>(
            "an admin called "@ + text::quoted_of(admin.name) + " already exists"@,
        )
    } else if !decodes {
        &&& after == before
        &&& result == Err::<(), Seq<char>>(crate::not_a_key(admin.key))
    } else {
        &&& after == before.push((admin.key, admin))
        &&& result is Ok
    }
}

/// Is any admin called this?
pub open spec fn has_name(rows: Seq<(Seq<char>, AdminView)>, name: Seq<char>) -> bool {
    exists|i: int| 0 <= i < rows.len() && (#[trigger] rows[i]).1.name == name
}

impl Admins {
    pub fn path_in(root: &str) -> (r: String)
        ensures
            r@ == path::join_of(root@, FILE@),
    {
        path::join(root, FILE)
    }

    /// Which admin this key belongs to, if any.
    ///
    /// By key, never by name: a name is a label chosen for a log, and only the key was proven
    /// by the connection.
    pub fn by_key(&self, key: &str) -> (r: Option<&Admin>)
        ensures
            match r {
                Some(a) => book::look_up(self@, key@) == Some(a@),
                None => book::look_up(self@, key@) is None,
            },
    {
        let mut i: usize = 0;
        while i < self.list.len() && !text::same(self.list[i].key.as_str(), key)
            invariant
                i <= self.list@.len(),
                forall|k: int| 0 <= k < i ==> (#[trigger] self@[k]).0 != key@,
            decreases self.list@.len() - i,
        {
            assert(self@[i as int].0 == self.list@[i as int].key@);
            i = i + 1;
        }
        proof {
            if i < self@.len() {
                assert(self@[i as int].0 == self.list@[i as int].key@);
            }
            book::lemma_place_is(self@, key@, i as int);
        }
        if i < self.list.len() {
            Some(&self.list[i])
        } else {
            None
        }
    }

    fn named(&self, name: &str) -> (r: bool)
        ensures
            r == has_name(self@, name@),
    {
        let mut i: usize = 0;
        while i < self.list.len()
            invariant
                i <= self.list@.len(),
                forall|k: int| 0 <= k < i ==> (#[trigger] self@[k]).1.name != name@,
            decreases self.list@.len() - i,
        {
            assert(self@[i as int].1 == self.list@[i as int]@);
            if text::same(self.list[i].name.as_str(), name) {
                return true;
            }
            i = i + 1;
        }
        false
    }

    /// Adds an admin. `decodes` says whether the key was found to be one.
    ///
    /// Names end up in logs and refusals, so two admins sharing one would make an audit trail
    /// ambiguous exactly when it matters.
    pub fn add(&mut self, admin: Admin, decodes: bool) -> (r: Result<(), String>)
        ensures
            adds(
                old(self)@,
                final(self)@,
                admin@,
                decodes,
                match r {
                    Ok(_) => Ok(()),
                    Err(why) => Err(why@),
                },
            ),
    {
        if self.by_key(admin.key.as_str()).is_some() {
            return Err("that key is already an admin".to_owned());
        }
        if self.named(admin.name.as_str()) {
            let mut why = String::from_str("an admin called ");
            why.append(text::quoted(admin.name.as_str()).as_str());
            why.append(" already exists");
            return Err(why);
        }
        if let Err(why) = crate::id52_check(admin.key.as_str(), decodes) {
            return Err(why);
        }
        let ghost before = self@;
        self.list.push(admin);
        assert(self@ =~= before.push((admin@.key, admin@)));
        Ok(())
    }
}

// ---------------------------------------------------------------------------
// what holds of every list of admins
// ---------------------------------------------------------------------------

/// No two admins share a key, and no two a name.
pub open spec fn unambiguous(rows: Seq<(Seq<char>, AdminView)>) -> bool {
    &&& book::distinct(rows)
    &&& forall|i: int, j: int|
        0 <= i < j < rows.len() ==> (#[trigger] rows[i]).1.name != (#[trigger] rows[j]).1.name
}

/// Adding an admin that is not refused keeps the list unambiguous, and that admin is then
/// found by that key.
pub proof fn law_adding_keeps_the_audit_trail_unambiguous(
    rows: Seq<(Seq<char>, AdminView)>,
    admin: AdminView,
)
    requires
        unambiguous(rows),
        !book::knows(rows, admin.key),
        !has_name(rows, admin.name),
    ensures
        unambiguous(rows.push((admin.key, admin))),
        book::look_up(rows.push((admin.key, admin)), admin.key) == Some(admin),
{
    book::lemma_place(rows, admin.key);
    let after = rows.push((admin.key, admin));
    assert forall|i: int| 0 <= i < rows.len() implies #[trigger] after[i].0 != admin.key by {
        assert(after[i] == rows[i]);
    }
    book::lemma_place_is(after, admin.key, rows.len() as int);
    assert forall|i: int, j: int| 0 <= i < j < after.len() implies #[trigger] after[i].0
        != #[trigger] after[j].0 by {
        assert(after[i] == rows[i]);
        if j < rows.len() {
            assert(after[j] == rows[j]);
        }
    }
    assert forall|i: int, j: int| 0 <= i < j < after.len() implies (#[trigger] after[i]).1.name != (
    #[trigger] after[j]).1.name by {
        assert(after[i] == rows[i]);
        if j < rows.len() {
            assert(after[j] == rows[j]);
        }
    }
}

/// An admin is added exactly where nobody has the key, nobody has the name, and the key is one.
/// Whoever was an admin stays one, and an admin that was added is found by that key.
pub proof fn law_an_admin_is_added_or_nothing_changes(
    before: Seq<(Seq<char>, AdminView)>,
    after: Seq<(Seq<char>, AdminView)>,
    admin: AdminView,
    decodes: bool,
    result: Result<(), Seq<char>>,
    other: Seq<char>,
)
    requires
        adds(before, after, admin, decodes, result),
        other != admin.key,
    ensures
        result is Ok <==> decodes && forall|i: int|
            0 <= i < before.len() ==> (#[trigger] before[i]).0 != admin.key && before[i].1.name
                != admin.name,
        result is Ok ==> book::look_up(after, admin.key) == Some(admin),
        result is Err ==> after == before,
        book::look_up(after, other) == book::look_up(before, other),
{
    book::law_an_entry_is_found_by_its_key(before, admin.key, 0);
    if result is Ok {
        book::law_remembering_changes_one_entry_and_no_other(before, admin.key, admin, other);
    } else if !book::knows(before, admin.key) && has_name(before, admin.name) {
        let i = choose|i: int| 0 <= i < before.len() && (#[trigger] before[i]).1.name == admin.name;
        assert(before[i].1.name == admin.name);
    } else if book::knows(before, admin.key) {
        let i = choose|i: int| 0 <= i < before.len() && (#[trigger] before[i]).0 == admin.key;
        assert(before[i].0 == admin.key);
    }
}

} // verus!
