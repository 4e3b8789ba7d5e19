//! JSON, one level at a time: what stands inside a list or an object is kept as it is
//! written, to be read when it is needed.

use vstd::prelude::*;
use vstd::string::*;

use crate::table::Table;
use crate::text;

verus! {

#[derive(Debug, Clone)]
pub enum Json {
    Null,
    Bool(bool),
    /// How it is written, and the whole number that it is, where it is one from nought up.
    Number { written: String, whole: Option<u64> },
    Text(String),
    /// The JSON of each item.
    List(Vec<String>),
    /// Each name, and the JSON of what stands under it.
    Object(Vec<(String, String)>),
}

#[verifier::ext_equal]
pub enum JsonView {
    Null,
    Bool(bool),
    Number { written: Seq<char>, whole: Option<u64> },
    Text(Seq<char>),
    List(Seq<Seq<char>>),
    Object(Seq<(Seq<char>, Seq<char>)>),
}

/// What a list of named texts holds.
pub open spec fn members(list: Seq<(String, String)>) -> Seq<(Seq<char>, Seq<char>)> {
    list.map_values(|m: (String, String)| (m.0@, m.1@))
}

impl View for Json {
    type V = JsonView;

    open spec fn view(&self) -> JsonView {
        match *self {
            Json::Null => JsonView::Null,
            Json::Bool(b) => JsonView::Bool(b),
            Json::Number { written, whole } => JsonView::Number { written: written@, whole },
            Json::Text(s) => JsonView::Text(s@),
            Json::List(items) => JsonView::List(text::texts(items@)),
            Json::Object(fields) => JsonView::Object(members(fields@)),
        }
    }
}

/// What a text is as JSON, without what stands inside it.
#[derive(Debug, Clone)]
pub enum Kind {
    Null,
    Bool(bool),
    Number { written: String, whole: Option<u64> },
    Text(String),
    List,
    Object,
}

#[verifier::ext_equal]
pub enum KindView {
    Null,
    Bool(bool),
    Number { written: Seq<char>, whole: Option<u64> },
    Text(Seq<char>),
    List,
    Object,
}

impl View for Kind {
    type V = KindView;

    open spec fn view(&self) -> KindView {
        match *self {
            Kind::Null => KindView::Null,
            Kind::Bool(b) => KindView::Bool(b),
            Kind::Number { written, whole } => KindView::Number { written: written@, whole },
            Kind::Text(s) => KindView::Text(s@),
            Kind::List => KindView::List,
            Kind::Object => KindView::Object,
        }
    }
}

/// What a text is as JSON, or what is wrong with it where it is none.
pub uninterp spec fn kind_of(s: Seq<char>) -> Result<KindView, Seq<char>>;

/// `serde_json::from_str` into a `serde_json::Value`: which of its variants that is, with the
/// value of a scalar. A number comes as it is displayed, and as what `as_u64` gives. The error
/// is the crate's own words. Only that one text always reads the same is claimed.
#[verifier::external_body]
fn kind(s: &str) -> (r: Result<Kind, String>)
    ensures
        match r {
            Ok(kind) => kind_of(s@) == Ok::<KindView, Seq<char>>(kind@),
            Err(why) => kind_of(s@) == Err::<KindView, Seq<char>>(why@),
        },
{
    Ok(match serde_json::from_str::<serde_json::Value>(s).map_err(|e| e.to_string())? {
        serde_json::Value::Null => Kind::Null,
        serde_json::Value::Bool(b) => Kind::Bool(b),
        serde_json::Value::Number(n) => Kind::Number { whole: n.as_u64(), written: n.to_string() },
        serde_json::Value::String(s) => Kind::Text(s),
        serde_json::Value::Array(_) => Kind::List,
        serde_json::Value::Object(_) => Kind::Object,
    })
}

/// What keeps bytes from being one JSON value, where they are read for their form alone.
pub uninterp spec fn skimmed(bytes: Seq<u8>) -> Result<(), Seq<char>>;

/// `serde_json::from_slice` into a `serde::de::IgnoredAny`, which reads past whatever value it
/// meets: a number out of range, half a surrogate pair, a text that is no UTF-8 and any depth
/// are all passed over. The error is the crate's own words. Only that the same bytes always
/// read the same is claimed.
#[verifier::external_body]
fn skim(bytes: &[u8]) -> (r: Result<(), String>)
    ensures
        match r {
            Ok(_) => skimmed(bytes@) is Ok,
            Err(why) => skimmed(bytes@) == Err::<(), Seq<char>>(why@),
        },
{
    serde_json::from_slice::<serde::de::IgnoredAny>(bytes).map(|_| ()).map_err(|e| e.to_string())
}

/// The JSON value that bytes begin with, and what stands behind it.
pub uninterp spec fn first_value_of(bytes: Seq<u8>) -> Option<(Seq<u8>, Seq<u8>)>;

/// `serde_json::Deserializer::into_iter`, asked for one `serde::de::IgnoredAny`: the bytes up
/// to the `byte_offset` behind the value that was skipped, which are some of them, and the
/// rest. Nothing where the bytes do not begin with a value. Beyond that only that the same
/// bytes always come apart in the same place is claimed.
#[verifier::external_body]
fn first_value<'a>(bytes: &'a [u8]) -> (r: Option<(&'a [u8], &'a [u8])>)
    ensures
        match r {
            Some((value, rest)) => {
                &&& first_value_of(bytes@) == Some((value@, rest@))
                &&& value@ + rest@ == bytes@
                &&& value@.len() > 0
            },
            None => first_value_of(bytes@) is None,
        },
{
    let mut values = serde_json::Deserializer::from_slice(bytes)
        .into_iter::<serde::de::IgnoredAny>();
    values.next()?.ok()?;
    Some(bytes.split_at(values.byte_offset()))
}

/// The white space of JSON.
pub open spec fn is_blank(b: u8) -> bool {
    b == 0x20 || b == 0x09 || b == 0x0A || b == 0x0D
}

/// What stands behind a mark that bytes begin with, white space aside.
pub open spec fn behind(bytes: Seq<u8>, mark: u8) -> Option<Seq<u8>>
    decreases bytes.len(),
{
    if bytes.len() == 0 {
        None
    } else if is_blank(bytes[0]) {
        behind(bytes.drop_first(), mark)
    } else if bytes[0] == mark {
        Some(bytes.drop_first())
    } else {
        None
    }
}

fn pass<'a>(bytes: &'a [u8], mark: u8) -> (r: Option<&'a [u8]>)
    requires
        !is_blank(mark),
    ensures
        match r {
            Some(rest) => behind(bytes@, mark) == Some(rest@) && rest@.len() < bytes@.len(),
            None => behind(bytes@, mark) is None,
        },
{
    let size: usize = bytes.len();
    let mut i: usize = 0;
    assert(bytes@.skip(0) =~= bytes@);
    while i < size && (bytes[i] == 0x20 || bytes[i] == 0x09 || bytes[i] == 0x0A || bytes[i] == 0x0D)
        invariant
            i <= size,
            size == bytes@.len(),
            behind(bytes@, mark) == behind(bytes@.skip(i as int), mark),
        decreases size - i,
    {
        assert(bytes@.skip(i as int).drop_first() =~= bytes@.skip(i as int + 1));
        i = i + 1;
    }
    if i < size && bytes[i] == mark {
        let rest = vstd::slice::slice_subrange(bytes, i + 1, size);
        assert(rest@ =~= bytes@.skip(i as int).drop_first());
        Some(rest)
    } else {
        None
    }
}

/// A value as text. One that is not UTF-8 says nothing, which no value does.
pub open spec fn written_of(value: Seq<u8>) -> Seq<char> {
    match text::text_of(value) {
        Some(s) => s,
        None => Seq::empty(),
    }
}

fn written(value: &[u8]) -> (r: String)
    ensures
        r@ == written_of(value@),
{
    match text::from_bytes(vstd::slice::slice_to_vec(value)) {
        Some(s) => s,
        None => String::new(),
    }
}

/// The values of a list, as they are written, from behind its bracket on.
pub open spec fn items_of(bytes: Seq<u8>) -> Seq<Seq<char>>
    decreases bytes.len(),
{
    match first_value_of(bytes) {
        None => Seq::empty(),
        Some((value, rest)) => match behind(rest, 0x2C) {
            Some(more) => if more.len() < bytes.len() {
                seq![written_of(value)] + items_of(more)
            } else {
                seq![written_of(value)]
            },
            None => seq![written_of(value)],
        },
    }
}

fn read_items(bytes: &[u8]) -> (r: Vec<String>)
    ensures
        text::texts(r@) == items_of(bytes@),
{
    let mut items: Vec<String> = Vec::new();
    let mut at = bytes;
    assert(text::texts(items@) + items_of(at@) =~= items_of(bytes@));
    loop
        invariant
            text::texts(items@) + items_of(at@) == items_of(bytes@),
        decreases at@.len(),
    {
        let (value, rest) = match first_value(at) {
            Some(found) => found,
            None => {
                assert(text::texts(items@) =~= items_of(bytes@));
                return items;
            },
        };
        let ghost before = items@;
        let ghost one = written_of(value@);
        items.push(written(value));
        assert(text::texts(items@) =~= text::texts(before).push(one));
        match pass(rest, 0x2C) {
            Some(more) => {
                assert(text::texts(items@) + items_of(more@) =~= text::texts(before) + (seq![one]
                    + items_of(more@)));
                at = more;
            },
            None => {
                assert(text::texts(items@) =~= text::texts(before) + seq![one]);
                return items;
            },
        }
    }
}

/// The member that bytes begin with: its name, its value as it is written, and what stands
/// behind it.
pub open spec fn first_row_of(bytes: Seq<u8>) -> Option<((Seq<char>, Seq<char>), Seq<u8>)> {
    match first_value_of(bytes) {
        Some((key, rest)) => match (kind_of(written_of(key)), behind(rest, 0x3A)) {
            (Ok(KindView::Text(name)), Some(more)) => match first_value_of(more) {
                Some((value, rest)) => Some(((name, written_of(value)), rest)),
                None => None,
            },
            _ => None,
        },
        None => None,
    }
}

fn first_row<'a>(bytes: &'a [u8]) -> (r: Option<((String, String), &'a [u8])>)
    ensures
        match r {
            Some((row, rest)) => {
                &&& first_row_of(bytes@) == Some(((row.0@, row.1@), rest@))
                &&& rest@.len() < bytes@.len()
            },
            None => first_row_of(bytes@) is None,
        },
{
    let (key, rest) = match first_value(bytes) {
        Some(found) => found,
        None => return None,
    };
    let name = match kind(written(key).as_str()) {
        Ok(Kind::Text(name)) => name,
        _ => return None,
    };
    let more = match pass(rest, 0x3A) {
        Some(more) => more,
        None => return None,
    };
    match first_value(more) {
        Some((value, rest)) => Some(((name, written(value)), rest)),
        None => None,
    }
}

/// A row of members and those that follow it, where those can be read.
pub open spec fn led_by(
    rows: Seq<(Seq<char>, Seq<char>)>,
    more: Option<Seq<(Seq<char>, Seq<char>)>>,
) -> Option<Seq<(Seq<char>, Seq<char>)>> {
    match more {
        Some(more) => Some(rows + more),
        None => None,
    }
}

/// The members of an object, in order, from behind its brace on. A name may come twice.
/// Nothing where a name is no text, as one with half a surrogate pair in it is not.
pub open spec fn rows_of(bytes: Seq<u8>) -> Option<Seq<(Seq<char>, Seq<char>)>>
    decreases bytes.len(),
{
    if first_value_of(bytes) is None {
        Some(Seq::empty())
    } else {
        match first_row_of(bytes) {
            None => None,
            Some((row, rest)) => match behind(rest, 0x2C) {
                Some(more) => if more.len() < bytes.len() {
                    led_by(seq![row], rows_of(more))
                } else {
                    None
                },
                None => Some(seq![row]),
            },
        }
    }
}

fn read_rows(bytes: &[u8]) -> (r: Option<Vec<(String, String)>>)
    ensures
        match r {
            Some(rows) => rows_of(bytes@) == Some(members(rows@)),
            None => rows_of(bytes@) is None,
        },
{
    let mut rows: Vec<(String, String)> = Vec::new();
    let mut at = bytes;
    proof {
        assert(members(rows@) =~= Seq::<(Seq<char>, Seq<char>)>::empty());
        if let Some(all) = rows_of(at@) {
            assert(members(rows@) + all =~= all);
        }
    }
    loop
        invariant
            rows_of(bytes@) == led_by(members(rows@), rows_of(at@)),
        decreases at@.len(),
    {
        if first_value(at).is_none() {
            assert(members(rows@) + Seq::<(Seq<char>, Seq<char>)>::empty() =~= members(rows@));
            return Some(rows);
        }
        let (row, rest) = match first_row(at) {
            Some(found) => found,
            None => return None,
        };
        let ghost before = rows@;
        let ghost one = (row.0@, row.1@);
        rows.push(row);
        assert(members(rows@) =~= members(before).push(one));
        match pass(rest, 0x2C) {
            Some(more) => {
                proof {
                    if let Some(all) = rows_of(more@) {
                        assert(members(rows@) + all =~= members(before) + (seq![one] + all));
                    }
                }
                at = more;
            },
            None => {
                assert(members(rows@) =~= members(before) + seq![one]);
                return Some(rows);
            },
        }
    }
}

/// What bytes hold that are a list in their form, each item as it is written.
pub open spec fn list_in(bytes: Seq<u8>) -> Option<Seq<Seq<char>>> {
    match (skimmed(bytes), behind(bytes, 0x5B)) {
        (Ok(_), Some(inside)) => Some(items_of(inside)),
        _ => None,
    }
}

fn read_list(bytes: &[u8]) -> (r: Option<Vec<String>>)
    ensures
        match r {
            Some(items) => list_in(bytes@) == Some(text::texts(items@)),
            None => list_in(bytes@) is None,
        },
{
    if skim(bytes).is_err() {
        return None;
    }
    match pass(bytes, 0x5B) {
        Some(inside) => Some(read_items(inside)),
        None => None,
    }
}

/// What a text holds that is a list in its form.
pub open spec fn list_of(s: Seq<char>) -> Option<Seq<Seq<char>>> {
    list_in(vstd::utf8::encode_utf8(s))
}

pub fn list(s: &str) -> (r: Option<Vec<String>>)
    ensures
        match r {
            Some(items) => list_of(s@) == Some(text::texts(items@)),
            None => list_of(s@) is None,
        },
{
    read_list(s.as_bytes())
}

/// What bytes hold that are an object in their form, each value as it is written.
pub open spec fn object_in(bytes: Seq<u8>) -> Option<Seq<(Seq<char>, Seq<char>)>> {
    match (skimmed(bytes), behind(bytes, 0x7B)) {
        (Ok(_), Some(inside)) => rows_of(inside),
        _ => None,
    }
}

fn read_object(bytes: &[u8]) -> (r: Option<Vec<(String, String)>>)
    ensures
        match r {
            Some(rows) => object_in(bytes@) == Some(members(rows@)),
            None => object_in(bytes@) is None,
        },
{
    if skim(bytes).is_err() {
        return None;
    }
    match pass(bytes, 0x7B) {
        Some(inside) => read_rows(inside),
        None => None,
    }
}

/// What a text says as JSON, or what is wrong with it where it is none.
pub open spec fn json_of(s: Seq<char>) -> Result<JsonView, Seq<char>> {
    match kind_of(s) {
        Err(why) => Err(why),
        Ok(KindView::Null) => Ok(JsonView::Null),
        Ok(KindView::Bool(b)) => Ok(JsonView::Bool(b)),
        Ok(KindView::Number { written, whole }) => Ok(JsonView::Number { written, whole }),
        Ok(KindView::Text(s)) => Ok(JsonView::Text(s)),
        Ok(KindView::List) => match list_of(s) {
            Some(items) => Ok(JsonView::List(items)),
            None => Err("not a list"@),
        },
        Ok(KindView::Object) => match object_in(vstd::utf8::encode_utf8(s)) {
            Some(rows) => Ok(JsonView::Object(rows)),
            None => Err("not an object"@),
        },
    }
}

pub fn read(s: &str) -> (r: Result<Json, String>)
    ensures
        match r {
            Ok(json) => json_of(s@) == Ok::<JsonView, Seq<char>>(json@),
            Err(why) => json_of(s@) == Err::<JsonView, Seq<char>>(why@),
        },
{
    match kind(s) {
        Err(why) => Err(why),
        Ok(Kind::Null) => Ok(Json::Null),
        Ok(Kind::Bool(b)) => Ok(Json::Bool(b)),
        Ok(Kind::Number { written, whole }) => Ok(Json::Number { written, whole }),
        Ok(Kind::Text(s)) => Ok(Json::Text(s)),
        Ok(Kind::List) => match list(s) {
            Some(items) => Ok(Json::List(items)),
            None => Err("not a list".to_owned()),
        },
        Ok(Kind::Object) => match read_object(s.as_bytes()) {
            Some(rows) => Ok(Json::Object(rows)),
            None => Err("not an object".to_owned()),
        },
    }
}

/// What is added to a complaint about a text that had to be JSON: what is wrong with it,
/// where something is.
pub open spec fn fault_of(read: Result<(), Seq<char>>) -> Seq<char> {
    match read {
        Ok(_) => Seq::empty(),
        Err(why) => ": "@ + why,
    }
}

/// Whether a text can be read to the last value in it, or what is wrong with it.
pub open spec fn legible(s: Seq<char>) -> Result<(), Seq<char>> {
    match json_of(s) {
        Ok(_) => Ok(()),
        Err(why) => Err(why),
    }
}

/// What is wrong with the form of bytes.
pub fn form_fault(bytes: &[u8]) -> (r: String)
    ensures
        r@ == fault_of(skimmed(bytes@)),
{
    match skim(bytes) {
        Ok(_) => String::new(),
        Err(why) => {
            let mut r = String::from_str(": ");
            r.append(why.as_str());
            r
        },
    }
}

/// What is wrong with a text, down to the last value in it.
pub fn fault(s: &str) -> (r: String)
    ensures
        r@ == fault_of(legible(s@)),
{
    match read(s) {
        Ok(_) => String::new(),
        Err(why) => {
            let mut r = String::from_str(": ");
            r.append(why.as_str());
            r
        },
    }
}

/// Does one of these names stand over two members?
pub open spec fn repeats(fields: Seq<(Seq<char>, Seq<char>)>, names: Seq<Seq<char>>) -> bool {
    exists|i: int, j: int|
        0 <= i < j < fields.len() && (#[trigger] fields[i]).0 == (#[trigger] fields[j]).0
            && names.contains(fields[i].0)
}

/// What a list of names holds.
pub open spec fn names_of(list: Seq<&str>) -> Seq<Seq<char>> {
    list.map_values(|n: &str| n@)
}

fn is_name(names: &Vec<&str>, name: &str) -> (r: bool)
    ensures
        r == names_of(names@).contains(name@),
{
    for i in 0..names.len()
        invariant
            forall|k: int| 0 <= k < i ==> names_of(names@)[k] != name@,
    {
        if text::same(names[i], name) {
            assert(names_of(names@)[i as int] == name@);
            return true;
        }
    }
    false
}

pub fn repeated(fields: &[(String, String)], names: &Vec<&str>) -> (r: bool)
    ensures
        r == repeats(members(fields@), names_of(names@)),
{
    let ghost all = members(fields@);
    for j in 0..fields.len()
        invariant
            all == members(fields@),
            forall|a: int, b: int|
                0 <= a < b < j && (#[trigger] all[a]).0 == (#[trigger] all[b]).0
                    ==> !names_of(names@).contains(all[a].0),
    {
        if is_name(names, fields[j].0.as_str()) {
            for i in 0..j
                invariant
                    j < fields@.len(),
                    all == members(fields@),
                    names_of(names@).contains(all[j as int].0),
                    forall|a: int| 0 <= a < i ==> (#[trigger] all[a]).0 != all[j as int].0,
            {
                assert(all[i as int].0 == fields@[i as int].0@);
                assert(all[j as int].0 == fields@[j as int].0@);
                if text::same(fields[i].0.as_str(), fields[j].0.as_str()) {
                    return true;
                }
            }
        }
    }
    false
}

/// The members of something that has these fields, in this order: an object that names none
/// of them twice, or a list of what the first of them hold. What stands under another name is
/// passed over unread.
pub open spec fn fields_in(bytes: Seq<u8>, names: Seq<Seq<char>>) -> Option<
    Seq<(Seq<char>, Seq<char>)>,
> {
    match (object_in(bytes), list_in(bytes)) {
        (Some(fields), _) => if repeats(fields, names) {
            None
        } else {
            Some(fields)
        },
        (None, Some(items)) => if items.len() <= names.len() {
            Some(Seq::new(items.len(), |i: int| (names[i], items[i])))
        } else {
            None
        },
        (None, None) => None,
    }
}

pub fn read_fields(bytes: &[u8], names: Vec<&str>) -> (r: Option<Vec<(String, String)>>)
    ensures
        match r {
            Some(fields) => fields_in(bytes@, names_of(names@)) == Some(members(fields@)),
            None => fields_in(bytes@, names_of(names@)) is None,
        },
{
    if let Some(fields) = read_object(bytes) {
        if repeated(fields.as_slice(), &names) {
            return None;
        }
        return Some(fields);
    }
    match read_list(bytes) {
        Some(items) => {
            if items.len() > names.len() {
                return None;
            }
            let ghost all = fields_in(bytes@, names_of(names@))->0;
            let mut fields: Vec<(String, String)> = Vec::new();
            for i in 0..items.len()
                invariant
                    items@.len() <= names@.len(),
                    all.len() == items@.len(),
                    forall|k: int|
                        0 <= k < all.len() ==> #[trigger] all[k] == (names@[k]@, items@[k]@),
                    members(fields@) == all.take(i as int),
            {
                let ghost before = fields@;
                let name = names[i].to_owned();
                let item = items[i].clone();
                fields.push((name, item));
                assert(all[i as int] == (name@, item@));
                assert(members(fields@) =~= members(before).push((name@, item@)));
                assert(all.take(i as int + 1) =~= all.take(i as int).push(all[i as int]));
            }
            assert(all.take(all.len() as int) =~= all);
            Some(fields)
        },
        None => None,
    }
}

/// The members of a text that has these fields.
pub open spec fn fields_of(s: Seq<char>, names: Seq<Seq<char>>) -> Option<
    Seq<(Seq<char>, Seq<char>)>,
> {
    fields_in(vstd::utf8::encode_utf8(s), names)
}

pub fn fields(s: &str, names: Vec<&str>) -> (r: Option<Vec<(String, String)>>)
    ensures
        match r {
            Some(fields) => fields_of(s@, names_of(names@)) == Some(members(fields@)),
            None => fields_of(s@, names_of(names@)) is None,
        },
{
    read_fields(s.as_bytes(), names)
}

/// The text under a name, in a list of named texts: the last, where there are several.
pub open spec fn member(fields: Seq<(Seq<char>, Seq<char>)>, name: Seq<char>) -> Option<Seq<char>>
    decreases fields.len(),
{
    if fields.len() == 0 {
        None
    } else if fields.last().0 == name {
        Some(fields.last().1)
    } else {
        member(fields.drop_last(), name)
    }
}

pub fn find<'a>(fields: &'a [(String, String)], name: &str) -> (r: Option<&'a str>)
    ensures
        match r {
            Some(s) => member(members(fields@), name@) == Some(s@),
            None => member(members(fields@), name@) is None,
        },
{
    let ghost all = members(fields@);
    let mut i: usize = fields.len();
    assert(all.take(i as int) =~= all);
    while i > 0
        invariant
            i <= fields@.len(),
            all == members(fields@),
            member(all, name@) == member(all.take(i as int), name@),
        decreases i,
    {
        i = i - 1;
        assert(all.take(i as int + 1).drop_last() =~= all.take(i as int));
        assert(all.take(i as int + 1).last() == (fields@[i as int].0@, fields@[i as int].1@));
        if text::same(fields[i].0.as_str(), name) {
            return Some(fields[i].1.as_str());
        }
    }
    None
}

// ---------------------------------------------------------------------------
// members of one kind
// ---------------------------------------------------------------------------

/// What a member that has to be a text says: nothing where it is missing, an error where it
/// is something else.
pub open spec fn text_member(fields: Seq<(Seq<char>, Seq<char>)>, name: Seq<char>) -> Result<
    Option<Seq<char>>,
    (),
> {
    match member(fields, name) {
        None => Ok(None),
        Some(json) => match json_of(json) {
            Ok(JsonView::Text(s)) => Ok(Some(s)),
            _ => Err(()),
        },
    }
}

pub fn find_text(fields: &[(String, String)], name: &str) -> (r: Result<Option<String>, ()>)
    ensures
        match r {
            Ok(Some(s)) => text_member(members(fields@), name@) == Ok::<Option<Seq<char>>, ()>(
                Some(s@),
            ),
            Ok(None) => text_member(members(fields@), name@) == Ok::<Option<Seq<char>>, ()>(None),
            Err(_) => text_member(members(fields@), name@) is Err,
        },
{
    match find(fields, name) {
        None => Ok(None),
        Some(json) => match read(json) {
            Ok(Json::Text(s)) => Ok(Some(s)),
            _ => Err(()),
        },
    }
}

/// What a member that has to be a whole number of at most `most` says.
pub open spec fn number_member(
    fields: Seq<(Seq<char>, Seq<char>)>,
    name: Seq<char>,
    most: u64,
) -> Result<Option<u64>, ()> {
    match member(fields, name) {
        None => Ok(None),
        Some(json) => match json_of(json) {
            Ok(JsonView::Number { whole, .. }) => match whole {
                Some(n) => if n <= most {
                    Ok(Some(n))
                } else {
                    Err(())
                },
                None => Err(()),
            },
            _ => Err(()),
        },
    }
}

pub fn find_number(fields: &[(String, String)], name: &str, most: u64) -> (r: Result<
    Option<u64>,
    (),
>)
    ensures
        r == number_member(members(fields@), name@, most),
{
    match find(fields, name) {
        None => Ok(None),
        Some(json) => match read(json) {
            Ok(Json::Number { whole: Some(n), .. }) => if n <= most {
                Ok(Some(n))
            } else {
                Err(())
            },
            _ => Err(()),
        },
    }
}

/// What a member that may be a text says: nothing where it is missing or null.
pub open spec fn optional_text(fields: Seq<(Seq<char>, Seq<char>)>, name: Seq<char>) -> Result<
    Option<Seq<char>>,
    (),
> {
    match member(fields, name) {
        None => Ok(None),
        Some(json) => match json_of(json) {
            Ok(JsonView::Null) => Ok(None),
            Ok(JsonView::Text(s)) => Ok(Some(s)),
            _ => Err(()),
        },
    }
}

pub fn find_optional_text(fields: &[(String, String)], name: &str) -> (r: Result<Option<String>, ()>)
    ensures
        match r {
            Ok(Some(s)) => optional_text(members(fields@), name@) == Ok::<Option<Seq<char>>, ()>(
                Some(s@),
            ),
            Ok(None) => optional_text(members(fields@), name@) == Ok::<Option<Seq<char>>, ()>(None),
            Err(_) => optional_text(members(fields@), name@) is Err,
        },
{
    match find(fields, name) {
        None => Ok(None),
        Some(json) => match read(json) {
            Ok(Json::Null) => Ok(None),
            Ok(Json::Text(s)) => Ok(Some(s)),
            _ => Err(()),
        },
    }
}

/// What a member that may be a whole number says: nothing where it is missing or null.
pub open spec fn optional_number(fields: Seq<(Seq<char>, Seq<char>)>, name: Seq<char>) -> Result<
    Option<u64>,
    (),
> {
    match member(fields, name) {
        None => Ok(None),
        Some(json) => match json_of(json) {
            Ok(JsonView::Null) => Ok(None),
            Ok(JsonView::Number { whole, .. }) => match whole {
                Some(n) => Ok(Some(n)),
                None => Err(()),
            },
            _ => Err(()),
        },
    }
}

pub fn find_optional_number(fields: &[(String, String)], name: &str) -> (r: Result<
    Option<u64>,
    (),
>)
    ensures
        r == optional_number(members(fields@), name@),
{
    match find(fields, name) {
        None => Ok(None),
        Some(json) => match read(json) {
            Ok(Json::Null) => Ok(None),
            Ok(Json::Number { whole: Some(n), .. }) => Ok(Some(n)),
            _ => Err(()),
        },
    }
}

// ---------------------------------------------------------------------------
// lists and tables of one kind
// ---------------------------------------------------------------------------

/// The texts that a list of JSON items is, where each of them is one.
pub open spec fn texts_in(items: Seq<Seq<char>>) -> Option<Seq<Seq<char>>>
    decreases items.len(),
{
    if items.len() == 0 {
        Some(Seq::empty())
    } else {
        match (texts_in(items.drop_last()), json_of(items.last())) {
            (Some(before), Ok(JsonView::Text(s))) => Some(before.push(s)),
            _ => None,
        }
    }
}

/// The whole numbers of at most `most` that a list of JSON items is, where each of them is one.
pub open spec fn numbers_in(items: Seq<Seq<char>>, most: u64) -> Option<Seq<u64>>
    decreases items.len(),
{
    if items.len() == 0 {
        Some(Seq::empty())
    } else {
        match (numbers_in(items.drop_last(), most), json_of(items.last())) {
            (Some(before), Ok(JsonView::Number { whole, .. })) => match whole {
                Some(n) => if n <= most {
                    Some(before.push(n))
                } else {
                    None
                },
                None => None,
            },
            _ => None,
        }
    }
}

/// The table of texts that a list of members is, where each of them is a text.
pub open spec fn table_in(fields: Seq<(Seq<char>, Seq<char>)>) -> Option<Map<Seq<char>, Seq<char>>>
    decreases fields.len(),
{
    if fields.len() == 0 {
        Some(Map::empty())
    } else {
        match (table_in(fields.drop_last()), json_of(fields.last().1)) {
            (Some(before), Ok(JsonView::Text(s))) => Some(before.insert(fields.last().0, s)),
            _ => None,
        }
    }
}

proof fn lemma_texts_in_none_stays(items: Seq<Seq<char>>, i: int)
    requires
        0 <= i <= items.len(),
        texts_in(items.take(i)) is None,
    ensures
        texts_in(items) is None,
    decreases items.len() - i,
{
    if i < items.len() {
        assert(items.take(i + 1).drop_last() =~= items.take(i));
        lemma_texts_in_none_stays(items, i + 1);
    } else {
        assert(items.take(i) =~= items);
    }
}

proof fn lemma_numbers_in_none_stays(items: Seq<Seq<char>>, most: u64, i: int)
    requires
        0 <= i <= items.len(),
        numbers_in(items.take(i), most) is None,
    ensures
        numbers_in(items, most) is None,
    decreases items.len() - i,
{
    if i < items.len() {
        assert(items.take(i + 1).drop_last() =~= items.take(i));
        lemma_numbers_in_none_stays(items, most, i + 1);
    } else {
        assert(items.take(i) =~= items);
    }
}

proof fn lemma_table_in_none_stays(fields: Seq<(Seq<char>, Seq<char>)>, i: int)
    requires
        0 <= i <= fields.len(),
        table_in(fields.take(i)) is None,
    ensures
        table_in(fields) is None,
    decreases fields.len() - i,
{
    if i < fields.len() {
        assert(fields.take(i + 1).drop_last() =~= fields.take(i));
        lemma_table_in_none_stays(fields, i + 1);
    } else {
        assert(fields.take(i) =~= fields);
    }
}

pub fn read_texts(items: &[String]) -> (r: Option<Vec<String>>)
    ensures
        match r {
            Some(list) => texts_in(text::texts(items@)) == Some(text::texts(list@)),
            None => texts_in(text::texts(items@)) is None,
        },
{
    let ghost all = text::texts(items@);
    let mut list: Vec<String> = Vec::new();
    assert(text::texts(list@) =~= Seq::<Seq<char>>::empty());
    for i in 0..items.len()
        invariant
            all == text::texts(items@),
            texts_in(all.take(i as int)) == Some(text::texts(list@)),
    {
        assert(all.take(i as int + 1).drop_last() =~= all.take(i as int));
        assert(all.take(i as int + 1).last() == items@[i as int]@);
        match read(items[i].as_str()) {
            Ok(Json::Text(s)) => {
                let ghost before = list@;
                list.push(s);
                assert(text::texts(list@) =~= text::texts(before).push(s@));
            },
            _ => {
                proof {
                    lemma_texts_in_none_stays(all, i as int + 1);
                }
                return None;
            },
        }
    }
    assert(all.take(all.len() as int) =~= all);
    Some(list)
}

pub fn read_numbers(items: &[String], most: u64) -> (r: Option<Vec<u64>>)
    ensures
        match r {
            Some(list) => numbers_in(text::texts(items@), most) == Some(list@),
            None => numbers_in(text::texts(items@), most) is None,
        },
{
    let ghost all = text::texts(items@);
    let mut list: Vec<u64> = Vec::new();
    for i in 0..items.len()
        invariant
            all == text::texts(items@),
            numbers_in(all.take(i as int), most) == Some(list@),
    {
        assert(all.take(i as int + 1).drop_last() =~= all.take(i as int));
        assert(all.take(i as int + 1).last() == items@[i as int]@);
        let n = match read(items[i].as_str()) {
            Ok(Json::Number { whole: Some(n), .. }) => Some(n),
            _ => None,
        };
        match n {
            Some(n) if n <= most => {
                list.push(n);
            },
            _ => {
                proof {
                    lemma_numbers_in_none_stays(all, most, i as int + 1);
                }
                return None;
            },
        }
    }
    assert(all.take(all.len() as int) =~= all);
    Some(list)
}

pub fn read_table(fields: &[(String, String)]) -> (r: Option<Table<String>>)
    ensures
        match r {
            Some(t) => table_in(members(fields@)) == Some(t.dict()),
            None => table_in(members(fields@)) is None,
        },
{
    let ghost all = members(fields@);
    let mut t: Table<String> = Table::new();
    for i in 0..fields.len()
        invariant
            all == members(fields@),
            table_in(all.take(i as int)) == Some(t.dict()),
    {
        assert(all.take(i as int + 1).drop_last() =~= all.take(i as int));
        assert(all.take(i as int + 1).last() == (fields@[i as int].0@, fields@[i as int].1@));
        match read(fields[i].1.as_str()) {
            Ok(Json::Text(s)) => t.insert(fields[i].0.clone(), s),
            _ => {
                proof {
                    lemma_table_in_none_stays(all, i as int + 1);
                }
                return None;
            },
        }
    }
    assert(all.take(all.len() as int) =~= all);
    Some(t)
}

/// The text under a name is the last that stands there, and nothing is where none does.
pub proof fn law_the_last_member_of_a_name_counts(
    fields: Seq<(Seq<char>, Seq<char>)>,
    name: Seq<char>,
    i: int,
)
    ensures
        member(fields, name) is Some <==> exists|k: int|
            0 <= k < fields.len() && (#[trigger] fields[k]).0 == name,
        0 <= i < fields.len() && fields[i].0 == name && (forall|k: int|
            i < k < fields.len() ==> (#[trigger] fields[k]).0 != name) ==> member(fields, name)
            == Some(fields[i].1),
    decreases fields.len(),
{
    if fields.len() > 0 {
        let less = fields.drop_last();
        law_the_last_member_of_a_name_counts(less, name, i);
        assert(fields[fields.len() - 1] == fields.last());
        if fields.last().0 != name {
            if exists|k: int| 0 <= k < fields.len() && (#[trigger] fields[k]).0 == name {
                let k = choose|k: int| 0 <= k < fields.len() && (#[trigger] fields[k]).0 == name;
                assert(less[k].0 == name);
            }
            if exists|k: int| 0 <= k < less.len() && (#[trigger] less[k]).0 == name {
                let k = choose|k: int| 0 <= k < less.len() && (#[trigger] less[k]).0 == name;
                assert(fields[k].0 == name);
            }
            if 0 <= i < fields.len() && fields[i].0 == name && (forall|k: int|
                i < k < fields.len() ==> (#[trigger] fields[k]).0 != name) {
                assert(i < less.len());
                assert forall|k: int| i < k < less.len() implies (#[trigger] less[k]).0 != name by {
                    assert(fields[k].0 != name);
                }
            }
        }
    }
}

/// What has to be a text or a number is refused where it is something else, and what may be left
/// out may also be null.
pub proof fn law_a_member_is_what_it_has_to_be(
    fields: Seq<(Seq<char>, Seq<char>)>,
    name: Seq<char>,
    most: u64,
    value: Seq<char>,
    s: Seq<char>,
    n: u64,
)
    ensures
        member(fields, name) is None ==> {
            &&& text_member(fields, name) == Ok::<Option<Seq<char>>, ()>(None)
            &&& number_member(fields, name, most) == Ok::<Option<u64>, ()>(None)
            &&& optional_text(fields, name) == Ok::<Option<Seq<char>>, ()>(None)
            &&& optional_number(fields, name) == Ok::<Option<u64>, ()>(None)
        },
        member(fields, name) == Some(value) && json_of(value) == Ok::<JsonView, Seq<char>>(
            JsonView::Text(s),
        ) ==> {
            &&& text_member(fields, name) == Ok::<Option<Seq<char>>, ()>(Some(s))
            &&& optional_text(fields, name) == Ok::<Option<Seq<char>>, ()>(Some(s))
            &&& number_member(fields, name, most) is Err
            &&& optional_number(fields, name) is Err
        },
        member(fields, name) == Some(value) && json_of(value) == Ok::<JsonView, Seq<char>>(
            (JsonView::Number { written: s, whole: Some(n) }),
        ) ==> {
            &&& n <= most ==> number_member(fields, name, most) == Ok::<Option<u64>, ()>(Some(n))
            &&& n > most ==> number_member(fields, name, most) is Err
            &&& optional_number(fields, name) == Ok::<Option<u64>, ()>(Some(n))
            &&& text_member(fields, name) is Err
        },
        member(fields, name) == Some(value) && json_of(value) == Ok::<JsonView, Seq<char>>(
            JsonView::Null,
        ) ==> {
            &&& optional_text(fields, name) == Ok::<Option<Seq<char>>, ()>(None)
            &&& optional_number(fields, name) == Ok::<Option<u64>, ()>(None)
            &&& text_member(fields, name) is Err
            &&& number_member(fields, name, most) is Err
        },
{
}

/// A list is read to its last item, in order, and a table to its last member; one item that is
/// something else spoils the whole.
pub proof fn law_a_list_is_read_to_its_last_item(
    items: Seq<Seq<char>>,
    item: Seq<char>,
    fields: Seq<(Seq<char>, Seq<char>)>,
    field: (Seq<char>, Seq<char>),
    most: u64,
    s: Seq<char>,
    n: u64,
)
    ensures
        texts_in(Seq::empty()) == Some(Seq::<Seq<char>>::empty()),
        numbers_in(Seq::empty(), most) == Some(Seq::<u64>::empty()),
        table_in(Seq::empty()) == Some(Map::<Seq<char>, Seq<char>>::empty()),
        json_of(item) == Ok::<JsonView, Seq<char>>(JsonView::Text(s)) ==> (match texts_in(items) {
            Some(before) => texts_in(items.push(item)) == Some(before.push(s)),
            None => texts_in(items.push(item)) is None,
        }),
        !(json_of(item) matches Ok(JsonView::Text(_))) ==> texts_in(items.push(item)) is None,
        json_of(item) == Ok::<JsonView, Seq<char>>(
            (JsonView::Number { written: s, whole: Some(n) }),
        ) && n <= most ==> (match numbers_in(items, most) {
            Some(before) => numbers_in(items.push(item), most) == Some(before.push(n)),
            None => numbers_in(items.push(item), most) is None,
        }),
        json_of(field.1) == Ok::<JsonView, Seq<char>>(JsonView::Text(s)) ==> (match table_in(
            fields,
        ) {
            Some(before) => table_in(fields.push(field)) == Some(before.insert(field.0, s)),
            None => table_in(fields.push(field)) is None,
        }),
        !(json_of(field.1) matches Ok(JsonView::Text(_))) ==> table_in(fields.push(field)) is None,
{
    assert(items.push(item).drop_last() =~= items);
    assert(fields.push(field).drop_last() =~= fields);
}

/// An object whose names are looked for may be a list of what they hold, in their order; an
/// object that says one of them twice is refused.
pub proof fn law_fields_may_stand_in_a_list(
    bytes: Seq<u8>,
    names: Seq<Seq<char>>,
    items: Seq<Seq<char>>,
    fields: Seq<(Seq<char>, Seq<char>)>,
    i: int,
)
    ensures
        object_in(bytes) is None && list_in(bytes) == Some(items) && items.len() <= names.len()
            ==> (fields_in(bytes, names) matches Some(rows) && rows.len() == items.len() && (0 <= i
            < items.len() ==> rows[i] == (names[i], items[i]))),
        object_in(bytes) == Some(fields) && (forall|j: int, k: int|
            0 <= j < k < fields.len() ==> (#[trigger] fields[j]).0 != (#[trigger] fields[k]).0)
            ==> fields_in(bytes, names) == Some(fields),
        object_in(bytes) == Some(fields) && 0 <= i < fields.len() - 1 && fields[i].0
            == fields.last().0 && names.contains(fields[i].0) ==> fields_in(bytes, names) is None,
{
    if 0 <= i < fields.len() - 1 && fields[i].0 == fields.last().0 && names.contains(fields[i].0) {
        assert(fields[fields.len() - 1] == fields.last());
        assert(repeats(fields, names));
    }
}

/// A mark is found behind the white space before it, and not behind anything else.
pub proof fn law_white_space_is_passed_over(bytes: Seq<u8>, mark: u8)
    requires
        mark != 0x20 && mark != 0x09 && mark != 0x0A && mark != 0x0D,
    ensures
        behind(seq![mark] + bytes, mark) == Some(bytes),
        behind(seq![0x20u8] + bytes, mark) == behind(bytes, mark),
        behind(seq![0x09u8] + bytes, mark) == behind(bytes, mark),
        behind(seq![0x0Au8] + bytes, mark) == behind(bytes, mark),
        behind(seq![0x0Du8] + bytes, mark) == behind(bytes, mark),
        bytes.len() > 0 && bytes[0] != mark && bytes[0] != 0x20 && bytes[0] != 0x09 && bytes[0]
            != 0x0A && bytes[0] != 0x0D ==> behind(bytes, mark) is None,
{
    assert((seq![mark] + bytes).drop_first() =~= bytes);
    assert((seq![0x20u8] + bytes).drop_first() =~= bytes);
    assert((seq![0x09u8] + bytes).drop_first() =~= bytes);
    assert((seq![0x0Au8] + bytes).drop_first() =~= bytes);
    assert((seq![0x0Du8] + bytes).drop_first() =~= bytes);
}

/// The values of a list are read one behind another, and so are the members of an object.
pub proof fn law_values_are_read_one_behind_another(
    bytes: Seq<u8>,
    value: Seq<u8>,
    rest: Seq<u8>,
    more: Seq<u8>,
)
    requires
        first_value_of(bytes) == Some((value, rest)),
        more.len() < bytes.len(),
    ensures
        behind(rest, ',' as u8) == Some(more) ==> items_of(bytes) == seq![written_of(value)]
            + items_of(more),
        behind(rest, ',' as u8) is None ==> items_of(bytes) == seq![written_of(value)],
{
}

} // verus!
