//! Cyberium: machines for tests, handed out on an organisation's own rules.
//!
//! A controller owns the fleet: which machines are here, what they can do, who holds them and
//! when to take them back. Callers plead for machines; how many a plea deserves is weighed
//! against what the caller's organisation has written down, inside limits that are checked
//! deterministically. This library holds those rules. What reads files, talks to the network
//! or waits stands around it.

use vstd::prelude::*;
use vstd::string::*;

pub mod admin;
pub mod adviser;
pub mod attest;
pub mod book;
pub mod budget;
pub mod cli;
pub mod controller;
pub mod directory;
pub mod enrolled;
pub mod fleet;
pub mod holding;
pub mod json;
pub mod nivedana;
pub mod path;
pub mod policy;
pub mod policytest;
pub mod proto;
pub mod rulebook;
pub mod services;
pub mod session;
pub mod sight;
pub mod table;
pub mod tenant;
pub mod tester;
pub mod text;
pub mod upload;
pub mod worker;

verus! {

// ---------------------------------------------------------------------------
// where a device lives
// ---------------------------------------------------------------------------

pub const HOME_ENV: &'static str = "CM_HOME";

pub const HOME_DEFAULT: &'static str = ".cm";

/// Where a host publishes which controller it runs.
pub const WELL_KNOWN: &'static str = "/.well-known/cm-controller";

/// What a host publishes there.
#[derive(Debug, Clone)]
pub struct Published {
    pub key: String,
    pub hints: Vec<String>,
}

#[derive(Debug, Clone)]
pub struct Config {
    pub name: String,
    pub key: String,
    pub parent: Vec<String>,
    pub parent_hints: Vec<String>,
    pub root: String,
}

/// Where a device lives, going by its own setting and by where its user does.
pub open spec fn lives(
    r: Result<String, String>,
    own: Option<String>,
    users: Option<String>,
) -> bool {
    match own {
        Some(dir) => r matches Ok(at) && at@ == dir@,
        None => match users {
            Some(dir) => r matches Ok(at) && at@ == path::join_of(dir@, HOME_DEFAULT@),
            None => r matches Err(why) && why@ == "neither CM_HOME nor HOME is set"@,
        },
    }
}

/// Where this device lives, going by what the environment says of `CM_HOME` and `HOME`.
pub fn home(own: Option<String>, users: Option<String>) -> (r: Result<String, String>)
    ensures
        lives(r, own, users),
{
    if let Some(dir) = own {
        return Ok(dir);
    }
    match users {
        Some(dir) => Ok(path::join(dir.as_str(), HOME_DEFAULT)),
        None => Err("neither CM_HOME nor HOME is set".to_owned()),
    }
}

pub fn config_path(home: &str) -> (r: String)
    ensures
        r@ == path::join_of(home@, "cm.toml"@),
{
    path::join(home, "cm.toml")
}

/// What is said of a text that is no key.
pub open spec fn not_a_key(key: Seq<char>) -> Seq<char> {
    text::quoted_of(key) + " is not an id52"@
}

/// Is this text a key? Asked wherever a key arrives as a string from a human, so a typo is
/// caught where it was typed rather than at the first dial. `decodes` is what the transport
/// that owns the keys found.
pub fn id52_check(key: &str, decodes: bool) -> (r: Result<(), String>)
    ensures
        match r {
            Ok(_) => decodes,
            Err(why) => !decodes && why@ == not_a_key(key@),
        },
{
    if decodes {
        return Ok(());
    }
    let mut why = text::quoted(key);
    why.append(" is not an id52");
    Err(why)
}

// ---------------------------------------------------------------------------
// odds and ends
// ---------------------------------------------------------------------------

/// How an exit status reads to a person.
pub open spec fn described(code: Option<i32>) -> Seq<char> {
    match code {
        Some(n) => if n == 0 {
            "success"@
        } else {
            "exit "@ + text::signed_of(n as int)
        },
        None => "no exit code (killed)"@,
    }
}

pub fn describe(code: Option<i32>) -> (r: String)
    ensures
        r@ == described(code),
{
    match code {
        Some(n) => {
            if n == 0 {
                return "success".to_owned();
            }
            let mut r = String::from_str("exit ");
            r.append(text::signed(n).as_str());
            r
        },
        None => "no exit code (killed)".to_owned(),
    }
}

/// What bytes are in base64, with the padding.
pub uninterp spec fn base64_of(bytes: Seq<u8>) -> Seq<char>;

/// The bytes that a text is in base64, or what is wrong with it.
pub uninterp spec fn unbase64_of(s: Seq<char>) -> Result<Seq<u8>, Seq<char>>;

/// Is this text base64 for these bytes?
pub open spec fn stands_for(s: Seq<char>, bytes: Seq<u8>) -> bool {
    unbase64_of(s) == Ok::<Seq<u8>, Seq<char>>(bytes)
}

/// `data_encoding::BASE64.encode`: one text for the same bytes every time, and a text that
/// `data_encoding::BASE64.decode` takes back to those bytes. The crate may panic beyond the
/// length asked for here.
#[verifier::external_body]
pub fn b64_encode(bytes: &[u8]) -> (r: String)
    requires
        bytes@.len() <= usize::MAX / 512,
    ensures
        r@ == base64_of(bytes@),
        stands_for(r@, bytes@),
{
    data_encoding::BASE64.encode(bytes)
}

/// `data_encoding::BASE64.decode`: the same answer for the same text every time. The crate may
/// panic beyond the length asked for here.
#[verifier::external_body]
pub fn b64_decode(text: &str) -> (r: Result<Vec<u8>, String>)
    requires
        vstd::utf8::encode_utf8(text@).len() <= usize::MAX / 8,
    ensures
        match r {
            Ok(bytes) => unbase64_of(text@) matches Ok(b) && b == bytes@,
            Err(why) => unbase64_of(text@) matches Err(w) && w == why@,
        },
{
    data_encoding::BASE64.decode(text.as_bytes()).map_err(|e| e.to_string())
}

/// Is an error, as text, how the transport reports a normal ending rather than a fault?
///
/// A caller that finished hangs up. Printing that trains everyone to ignore the log, which is
/// worse than printing nothing.
pub open spec fn is_quiet(e: Seq<char>) -> bool {
    ||| text::holds(e, "closed by peer"@)
    ||| text::holds(e, "connection closed"@)
    ||| text::holds(e, "during the handshake"@)
}

pub fn quiet(e: &str) -> (r: bool)
    ensures
        r == is_quiet(e@),
{
    text::contains(e, "closed by peer") || text::contains(e, "connection closed") || text::contains(
        e,
        "during the handshake",
    )
}

/// A device lives where its own setting says, or in a folder of its own below its user's, and
/// nowhere where neither is known.
pub proof fn law_a_device_lives_where_it_is_told(
    r: Result<String, String>,
    own: Option<String>,
    users: Option<String>,
)
    requires
        lives(r, own, users),
    ensures
        own matches Some(dir) ==> r matches Ok(at) && at@ == dir@,
        (own, users) matches (None, Some(dir)) ==> (r matches Ok(at) && (dir@.len() > 0 && dir@.last()
            != '/' ==> at@ == dir@ + "/.cm"@)),
        own is None && users is None ==> r is Err,
{
    if let (None, Some(dir)) = (own, users) {
        reveal_strlit(".cm");
        reveal_strlit("/");
        reveal_strlit("/.cm");
        path::law_a_name_is_looked_for_in_its_folder(dir@, ".cm"@);
        assert(dir@ + "/"@ + ".cm"@ =~= dir@ + "/.cm"@);
    }
}

/// An exit status reads as success only where it is nought, and one that was killed says so.
pub proof fn law_only_nought_reads_as_success(code: i32)
    ensures
        described(Some(0i32)) == "success"@,
        code > 0 ==> described(Some(code)) == "exit "@ + text::decimal_of(code as nat),
        code < 0 ==> described(Some(code)) == "exit "@ + ("-"@ + text::decimal_of((-code) as nat)),
        described(None) == "no exit code (killed)"@,
{
}

/// An ending is quiet where the other side just hung up, and anything else is told.
pub proof fn law_hanging_up_is_no_fault(a: Seq<char>, b: Seq<char>, e: Seq<char>)
    ensures
        is_quiet(a + "closed by peer"@ + b),
        is_quiet(a + "connection closed"@ + b),
        is_quiet(a + "during the handshake"@ + b),
        is_quiet(e) ==> text::holds(e, "closed by peer"@) || text::holds(e, "connection closed"@)
            || text::holds(e, "during the handshake"@),
{
    text::lemma_holds_middle(a, "closed by peer"@, b);
    text::lemma_holds_middle(a, "connection closed"@, b);
    text::lemma_holds_middle(a, "during the handshake"@, b);
}

} // verus!
