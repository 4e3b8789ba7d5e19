//! Attestation: a credential that somebody else issued.
//!
//! A sealed ticket answers "who is this" for anything with a keypair that was enrolled once.
//! It does not cover a cloud runner, which exists for ninety seconds and has nothing to enrol.
//! For those the controller believes a token of an issuer that its host has named, and binds
//! it to the caller: the audience of a token must be the key the caller is dialling from, so
//! that a token lifted out of a build log is worth nothing.

use vstd::prelude::*;
use vstd::string::*;

use crate::fleet;
use crate::json;
use crate::json::{Json, JsonView};
use crate::path;
use crate::table;
use crate::table::Table;
use crate::text;

verus! {

pub const FILE: &'static str = "issuers.toml";

/// How long a fetched key set is used before it is refreshed, in seconds.
pub const KEYS_FOR_SECS: u64 = 3600;

/// How far ahead another clock may be, in seconds.
pub const SLACK: u64 = 60;

// ---------------------------------------------------------------------------
// patterns
// ---------------------------------------------------------------------------

pub open spec fn starred_start(s: Seq<char>) -> bool {
    s.len() > 0 && s[0] == '*'
}

pub open spec fn starred_end(s: Seq<char>) -> bool {
    s.len() > 0 && s.last() == '*'
}

/// Does a subject match a pattern? `*` stands for anything at either end of a pattern, and
/// for itself anywhere else.
pub open spec fn fits(pattern: Seq<char>, subject: Seq<char>) -> bool {
    if starred_start(pattern) && starred_end(pattern) {
        let middle = text::without_end(text::without_start(pattern, '*'), '*');
        middle.len() == 0 || text::holds(subject, middle)
    } else if starred_start(pattern) {
        text::ends(subject, pattern.drop_first())
    } else if starred_end(pattern) {
        text::begins(subject, pattern.drop_last())
    } else {
        pattern == subject
    }
}

pub fn matching(pattern: &str, subject: &str) -> (r: bool)
    ensures
        r == fits(pattern@, subject@),
{
    let chars = text::chars_of(pattern);
    let size: usize = chars.len();
    if size == 0 {
        return text::same(pattern, subject);
    }
    let start = chars[0] == '*';
    let end = chars[size - 1] == '*';
    if start && end {
        let middle = text::strip_end(text::strip_start(pattern, '*'), '*');
        if middle.is_empty() {
            return true;
        }
        return text::contains(subject, middle);
    }
    if start {
        assert(chars@.subrange(1, size as int) =~= chars@.drop_first());
        return text::ends_with(subject, text::slice(pattern, 1, size));
    }
    if end {
        assert(chars@.subrange(0, size as int - 1) =~= chars@.drop_last());
        return text::starts_with(subject, text::slice(pattern, 0, size - 1));
    }
    text::same(pattern, subject)
}

// ---------------------------------------------------------------------------
// who is believed
// ---------------------------------------------------------------------------

/// Somebody whose word counts as proof here, besides this organisation's own devices.
#[derive(Debug, Clone)]
pub struct Issuer {
    /// What to call it. Every alias it vouches for begins with it.
    pub name: String,
    /// The `iss` claim, matched exactly.
    pub url: String,
    /// Where the signing keys are published.
    pub jwks: String,
    /// Which claim names the caller.
    pub subject: String,
    /// Patterns the subject must match, with `*` allowed at either end.
    pub allow: Vec<String>,
    /// Other claims to carry through as attested facts.
    pub facts: Vec<String>,
    /// May a token from here enrol a key, so that its holder never needs another one?
    pub enrol: bool,
}

#[verifier::ext_equal]
pub struct IssuerView {
    pub name: Seq<char>,
    pub url: Seq<char>,
    pub jwks: Seq<char>,
    pub subject: Seq<char>,
    pub allow: Seq<Seq<char>>,
    pub facts: Seq<Seq<char>>,
    pub enrol: bool,
}

impl View for Issuer {
    type V = IssuerView;

    open spec fn view(&self) -> IssuerView {
        IssuerView {
            name: self.name@,
            url: self.url@,
            jwks: self.jwks@,
            subject: self.subject@,
            allow: text::texts(self.allow@),
            facts: text::texts(self.facts@),
            enrol: self.enrol,
        }
    }
}

impl Issuer {
    pub fn may_enrol(&self) -> (r: bool)
        ensures
            r == self.enrol,
    {
        self.enrol
    }

    fn copied(&self) -> (r: Self)
        ensures
            r@ == self@,
    {
        Issuer {
            name: self.name.clone(),
            url: self.url.clone(),
            jwks: self.jwks.clone(),
            subject: self.subject.clone(),
            allow: text::copied(self.allow.as_slice()),
            facts: text::copied(self.facts.as_slice()),
            enrol: self.enrol,
        }
    }
}

/// Who this controller will believe, as its host wrote it down.
#[derive(Debug, Clone)]
pub struct Config {
    pub issuers: Vec<Issuer>,
}

impl Default for Config {
    /// Nobody: a controller that believed an issuer it was never told about would believe
    /// whoever can mint a token.
    fn default() -> (r: Self)
        ensures
            r.issuers@.len() == 0,
    {
        Config { issuers: Vec::new() }
    }
}

pub open spec fn issuers(list: Seq<Issuer>) -> Seq<IssuerView> {
    list.map_values(|i: Issuer| i@)
}

/// Where the issuer with this `iss` stands in a list, or the end where there is none.
pub open spec fn place(list: Seq<IssuerView>, url: Seq<char>) -> int
    decreases list.len(),
{
    if list.len() == 0 || list[0].url == url {
        0
    } else {
        1 + place(list.drop_first(), url)
    }
}

// ---------------------------------------------------------------------------
// what a token says
// ---------------------------------------------------------------------------

/// A text without the padding it ends with.
pub open spec fn unpadded(s: Seq<char>) -> Seq<char> {
    text::without_end(s, '=')
}

/// The longest text, in bytes, that is tried as base64.
pub open spec fn decodable(s: Seq<char>) -> bool {
    vstd::utf8::encode_utf8(s).len() <= usize::MAX / 8
}

/// The bytes that a text is in base64url without padding, or what is wrong with it.
pub uninterp spec fn base64url_of(s: Seq<char>) -> Result<Seq<u8>, Seq<char>>;

/// `data_encoding::BASE64URL_NOPAD.decode`, its error in the crate's own words: the same
/// answer for the same text every time. The crate may panic beyond the length asked for here.
#[verifier::external_body]
fn base64url(s: &str) -> (r: Result<Vec<u8>, String>)
    requires
        decodable(s@),
    ensures
        match r {
            Ok(bytes) => base64url_of(s@) == Ok::<Seq<u8>, Seq<char>>(bytes@),
            Err(why) => base64url_of(s@) == Err::<Seq<u8>, Seq<char>>(why@),
        },
{
    data_encoding::BASE64URL_NOPAD.decode(s.as_bytes()).map_err(|e| e.to_string())
}

/// The bytes that a text is in base64url, padded or not.
pub open spec fn bytes_of(s: Seq<char>) -> Result<Seq<u8>, Seq<char>> {
    if decodable(unpadded(s)) {
        match base64url_of(unpadded(s)) {
            Ok(bytes) => Ok(bytes),
            Err(why) => Err("not base64url: "@ + why),
        }
    } else {
        Err("not base64url"@)
    }
}

fn b64(s: &str) -> (r: Result<Vec<u8>, String>)
    ensures
        match r {
            Ok(bytes) => bytes_of(s@) == Ok::<Seq<u8>, Seq<char>>(bytes@),
            Err(why) => bytes_of(s@) == Err::<Seq<u8>, Seq<char>>(why@),
        },
{
    let bare = text::strip_end(s, '=');
    if bare.as_bytes().len() > usize::MAX / 8 {
        return Err("not base64url".to_owned());
    }
    match base64url(bare) {
        Ok(bytes) => Ok(bytes),
        Err(cause) => {
            let mut why = String::from_str("not base64url: ");
            why.append(cause.as_str());
            Err(why)
        },
    }
}

/// What is wrong with a part of a token, as it is added to a complaint about it: that it is
/// not base64url, or no JSON. `whole` says that every value in it is read, rather than those
/// that are looked for. Nothing where it is JSON of another shape, nor where it is to be read
/// whole and is no text.
pub open spec fn part_fault(part: Seq<char>, whole: bool) -> Seq<char> {
    match bytes_of(part) {
        Err(why) => ": "@ + why,
        Ok(bytes) => if !whole {
            json::fault_of(json::skimmed(bytes))
        } else {
            match text::text_of(bytes) {
                Some(s) => json::fault_of(json::legible(s)),
                None => Seq::empty(),
            }
        },
    }
}

fn complain(of: &str, part: &str, whole: bool) -> (r: String)
    ensures
        r@ == of@ + part_fault(part@, whole),
{
    let mut why = of.to_owned();
    match b64(part) {
        Err(cause) => {
            why.append(": ");
            why.append(cause.as_str());
            assert(why@ =~= of@ + (": "@ + cause@));
        },
        Ok(bytes) => if !whole {
            why.append(json::form_fault(bytes.as_slice()).as_str());
        } else {
            match text::from_bytes(bytes) {
                Some(s) => why.append(json::fault(s.as_str()).as_str()),
                None => {},
            }
        },
    }
    why
}

/// The JSON that a part of a token is, as text.
pub open spec fn opened(part: Seq<char>) -> Option<Seq<char>> {
    match bytes_of(part) {
        Ok(bytes) => text::text_of(bytes),
        Err(_) => None,
    }
}

fn open_part(part: &str) -> (r: Option<String>)
    ensures
        match r {
            Some(s) => opened(part@) == Some(s@),
            None => opened(part@) is None,
        },
{
    match b64(part) {
        Ok(bytes) => text::from_bytes(bytes),
        Err(_) => None,
    }
}

/// What a token's first part says: its algorithm, and which key signed it.
pub struct Header {
    pub alg: String,
    pub kid: Option<String>,
}

#[verifier::ext_equal]
pub struct HeaderView {
    pub alg: Seq<char>,
    pub kid: Option<Seq<char>>,
}

impl View for Header {
    type V = HeaderView;

    open spec fn view(&self) -> HeaderView {
        HeaderView {
            alg: self.alg@,
            kid: match self.kid {
                Some(kid) => Some(kid@),
                None => None,
            },
        }
    }
}

pub open spec fn header_of(part: Seq<char>) -> Option<HeaderView> {
    match bytes_of(part) {
        Ok(bytes) => match json::fields_in(bytes, seq!["alg"@, "kid"@]) {
            Some(fields) => match (
                json::text_member(fields, "alg"@),
                json::optional_text(fields, "kid"@),
            ) {
                (Ok(Some(alg)), Ok(kid)) => Some(HeaderView { alg, kid }),
                _ => None,
            },
            None => None,
        },
        Err(_) => None,
    }
}

fn read_header(part: &str) -> (r: Option<Header>)
    ensures
        match r {
            Some(header) => header_of(part@) == Some(header@),
            None => header_of(part@) is None,
        },
{
    let bytes = match b64(part) {
        Ok(bytes) => bytes,
        Err(_) => return None,
    };
    let names = vec!["alg", "kid"];
    assert(json::names_of(names@) =~= seq!["alg"@, "kid"@]);
    let fields = match json::read_fields(bytes.as_slice(), names) {
        Some(fields) => fields,
        None => return None,
    };
    let alg = match json::find_text(fields.as_slice(), "alg") {
        Ok(Some(alg)) => alg,
        _ => return None,
    };
    match json::find_optional_text(fields.as_slice(), "kid") {
        Ok(kid) => Some(Header { alg, kid }),
        Err(_) => None,
    }
}

/// What a token's second part says.
pub struct Claims {
    pub iss: String,
    pub exp: Option<u64>,
    pub nbf: Option<u64>,
    pub iat: Option<u64>,
    /// Every claim, as JSON.
    pub all: Vec<(String, String)>,
}

#[verifier::ext_equal]
pub struct ClaimsView {
    pub iss: Seq<char>,
    pub exp: Option<u64>,
    pub nbf: Option<u64>,
    pub iat: Option<u64>,
    pub all: Seq<(Seq<char>, Seq<char>)>,
}

impl View for Claims {
    type V = ClaimsView;

    open spec fn view(&self) -> ClaimsView {
        ClaimsView {
            iss: self.iss@,
            exp: self.exp,
            nbf: self.nbf,
            iat: self.iat,
            all: json::members(self.all@),
        }
    }
}

/// The claims that may come only once.
pub open spec fn claim_names() -> Seq<Seq<char>> {
    seq!["iss"@, "aud"@, "exp"@, "nbf"@, "iat"@]
}

pub open spec fn claims_of(part: Seq<char>) -> Option<ClaimsView> {
    match opened(part) {
        Some(s) => match json::json_of(s) {
            Ok(JsonView::Object(all)) => if json::repeats(all, claim_names()) {
                None
            } else {
                match (
                    json::text_member(all, "iss"@),
                    json::optional_number(all, "exp"@),
                    json::optional_number(all, "nbf"@),
                    json::optional_number(all, "iat"@),
                ) {
                    (Ok(Some(iss)), Ok(exp), Ok(nbf), Ok(iat)) => Some(
                        ClaimsView { iss, exp, nbf, iat, all },
                    ),
                    _ => None,
                }
            },
            _ => None,
        },
        None => None,
    }
}

fn read_claims(part: &str) -> (r: Option<Claims>)
    ensures
        match r {
            Some(claims) => claims_of(part@) == Some(claims@),
            None => claims_of(part@) is None,
        },
{
    let s = match open_part(part) {
        Some(s) => s,
        None => return None,
    };
    let all = match json::read(s.as_str()) {
        Ok(Json::Object(all)) => all,
        _ => return None,
    };
    let names = vec!["iss", "aud", "exp", "nbf", "iat"];
    assert(json::names_of(names@) =~= claim_names());
    if json::repeated(all.as_slice(), &names) {
        return None;
    }
    let iss = match json::find_text(all.as_slice(), "iss") {
        Ok(Some(iss)) => iss,
        _ => return None,
    };
    let exp = match json::find_optional_number(all.as_slice(), "exp") {
        Ok(exp) => exp,
        Err(_) => return None,
    };
    let nbf = match json::find_optional_number(all.as_slice(), "nbf") {
        Ok(nbf) => nbf,
        Err(_) => return None,
    };
    match json::find_optional_number(all.as_slice(), "iat") {
        Ok(iat) => Some(Claims { iss, exp, nbf, iat, all }),
        Err(_) => None,
    }
}

/// Is a key among those a token is for? The claim is one text, or a list of them.
pub open spec fn is_for(all: Seq<(Seq<char>, Seq<char>)>, key: Seq<char>) -> bool {
    match json::member(all, "aud"@) {
        Some(aud) => match json::json_of(aud) {
            Ok(JsonView::Text(one)) => one == key,
            Ok(JsonView::List(many)) => exists|i: int|
                0 <= i < many.len() && #[trigger] json::json_of(many[i]) == Ok::<JsonView, Seq<char>>(
                    JsonView::Text(key),
                ),
            _ => false,
        },
        None => false,
    }
}

impl Claims {
    /// Is this key among those the token is for?
    pub fn audience(&self, key: &str) -> (r: bool)
        ensures
            r == is_for(self@.all, key@),
    {
        let aud = match json::find(self.all.as_slice(), "aud") {
            Some(aud) => aud,
            None => return false,
        };
        match json::read(aud) {
            Ok(Json::Text(one)) => text::same(one.as_str(), key),
            Ok(Json::List(many)) => {
                let ghost items = text::texts(many@);
                for i in 0..many.len()
                    invariant
                        items == text::texts(many@),
                        json::member(self@.all, "aud"@) == Some(aud@),
                        json::json_of(aud@) == Ok::<JsonView, Seq<char>>(JsonView::List(items)),
                        forall|k: int|
                            0 <= k < i ==> #[trigger] json::json_of(items[k]) != Ok::<JsonView, Seq<char>>(
                                JsonView::Text(key@),
                            ),
                {
                    assert(items[i as int] == many@[i as int]@);
                    if let Ok(Json::Text(one)) = json::read(many[i].as_str()) {
                        if text::same(one.as_str(), key) {
                            assert(json::json_of(items[i as int]) == Ok::<JsonView, Seq<char>>(JsonView::Text(key@)));
                            return true;
                        }
                    }
                }
                false
            },
            _ => false,
        }
    }
}

/// The claims that are about the token itself, and not facts about its holder.
pub open spec fn about_the_token(name: Seq<char>) -> bool {
    name == "iss"@ || name == "aud"@ || name == "exp"@ || name == "nbf"@ || name == "iat"@
}

/// A claim about the holder, as text. Numbers and booleans count: they are as useful to a
/// policy as texts are.
pub open spec fn claim_of(all: Seq<(Seq<char>, Seq<char>)>, name: Seq<char>) -> Option<Seq<char>> {
    if about_the_token(name) {
        None
    } else {
        match json::member(all, name) {
            Some(value) => as_text_of(value),
            None => None,
        }
    }
}

pub open spec fn as_text_of(value: Seq<char>) -> Option<Seq<char>> {
    match json::json_of(value) {
        Ok(JsonView::Text(s)) => Some(s),
        Ok(JsonView::Number { written, .. }) => Some(written),
        Ok(JsonView::Bool(b)) => Some(
            if b {
                "true"@
            } else {
                "false"@
            },
        ),
        _ => None,
    }
}

fn as_text(value: &str) -> (r: Option<String>)
    ensures
        match r {
            Some(s) => as_text_of(value@) == Some(s@),
            None => as_text_of(value@) is None,
        },
{
    match json::read(value) {
        Ok(Json::Text(s)) => Some(s),
        Ok(Json::Number { written, .. }) => Some(written),
        Ok(Json::Bool(b)) => Some(
            if b {
                "true".to_owned()
            } else {
                "false".to_owned()
            },
        ),
        _ => None,
    }
}

impl Claims {
    fn claim(&self, name: &str) -> (r: Option<String>)
        ensures
            match r {
                Some(s) => claim_of(self@.all, name@) == Some(s@),
                None => claim_of(self@.all, name@) is None,
            },
    {
        if text::same(name, "iss") || text::same(name, "aud") || text::same(name, "exp")
            || text::same(name, "nbf") || text::same(name, "iat") {
            return None;
        }
        match json::find(self.all.as_slice(), name) {
            Some(value) => as_text(value),
            None => None,
        }
    }
}

// ---------------------------------------------------------------------------
// a token, as far as it can be believed before its signature is looked at
// ---------------------------------------------------------------------------

/// A token that names an issuer believed here, is for the key it arrived on, and is good now.
/// Nothing in it is worth reading before the issuer's keys have verified it.
pub struct Presented {
    pub issuer: Issuer,
    pub kid: Option<String>,
    pub signed: String,
    pub signature: String,
    pub claims: Claims,
}

#[verifier::ext_equal]
pub struct PresentedView {
    pub issuer: IssuerView,
    pub kid: Option<Seq<char>>,
    pub signed: Seq<char>,
    pub signature: Seq<char>,
    pub claims: ClaimsView,
}

impl View for Presented {
    type V = PresentedView;

    open spec fn view(&self) -> PresentedView {
        PresentedView {
            issuer: self.issuer@,
            kid: match self.kid {
                Some(kid) => Some(kid@),
                None => None,
            },
            signed: self.signed@,
            signature: self.signature@,
            claims: self.claims@,
        }
    }
}

pub const NO_SIGNATURE: &'static str = "not a JWT: no signature";

pub const NO_PAYLOAD: &'static str = "not a JWT: no payload";

pub const BAD_HEADER: &'static str = "the token's header";

pub const BAD_CLAIMS: &'static str = "the token's claims";

pub const WRONG_AUDIENCE: &'static str =
    "this token's audience is not the key it arrived on, so it could have been \
     lifted from anywhere. Mint it with the caller's own id52 as the audience.";

pub const NO_EXPIRY: &'static str = "this token has no expiry, so it would be valid forever";

pub const BAD_SIGNATURE: &'static str = "the token's signature";

pub const UNVERIFIED: &'static str = "this token's signature does not verify";

pub open spec fn unsupported(alg: Seq<char>) -> Seq<char> {
    "unsupported token algorithm "@ + text::quoted_of(alg) + "; only RS256"@
}

pub open spec fn unlisted(iss: Seq<char>) -> Seq<char> {
    "no issuer configured for "@ + text::quoted_of(iss)
        + " — the host lists them in issuers.toml"@
}

pub open spec fn expired(ago: nat) -> Seq<char> {
    "this token expired "@ + text::decimal_of(ago) + "s ago"@
}

pub open spec fn early(ahead: nat) -> Seq<char> {
    "this token is not valid yet ("@ + text::decimal_of(ahead) + "s from now)"@
}

/// When a token says it begins to be good.
pub open spec fn begins(claims: ClaimsView) -> Option<u64> {
    match claims.nbf {
        Some(nbf) => Some(nbf),
        None => claims.iat,
    }
}

/// What is wrong with when a token is good, if anything is. An expiry is taken at its word;
/// only a beginning has some slack, because two clocks are two clocks.
pub open spec fn untimely(claims: ClaimsView, now: u64) -> Option<Seq<char>> {
    match claims.exp {
        None => Some(NO_EXPIRY@),
        Some(exp) => if exp <= now {
            Some(expired((now - exp) as nat))
        } else {
            match begins(claims) {
                Some(from) => if from > now + SLACK {
                    Some(early((from - now) as nat))
                } else {
                    None
                },
                None => None,
            }
        },
    }
}

fn timely(claims: &Claims, now: u64) -> (r: Result<(), String>)
    ensures
        match r {
            Ok(_) => untimely(claims@, now) is None,
            Err(why) => untimely(claims@, now) == Some(why@),
        },
{
    let exp = match claims.exp {
        Some(exp) => exp,
        None => return Err(NO_EXPIRY.to_owned()),
    };
    if exp <= now {
        let mut why = String::from_str("this token expired ");
        why.append(text::decimal(now - exp).as_str());
        why.append("s ago");
        return Err(why);
    }
    let from = match claims.nbf {
        Some(nbf) => Some(nbf),
        None => claims.iat,
    };
    if let Some(from) = from {
        if from > now && from - now > SLACK {
            let mut why = String::from_str("this token is not valid yet (");
            why.append(text::decimal(from - now).as_str());
            why.append("s from now)");
            return Err(why);
        }
    }
    Ok(())
}

/// What a token presents, or why it is refused unread.
///
/// `iss` is read before anything has been verified, because it is how the key set is found.
/// That is safe: a forged one finds keys that will not verify the forgery.
pub open spec fn presented(
    believed: Seq<IssuerView>,
    token: Seq<char>,
    dialling_from: Seq<char>,
    now: u64,
) -> Result<PresentedView, Seq<char>> {
    let last = text::last_place_of(token, '.');
    let signed = token.take(last);
    let dot = text::place_of(signed, '.');
    if last < 0 {
        Err(NO_SIGNATURE@)
    } else if dot >= signed.len() {
        Err(NO_PAYLOAD@)
    } else {
        match header_of(signed.take(dot)) {
            None => Err(BAD_HEADER@ + part_fault(signed.take(dot), false)),
            Some(header) => if header.alg != "RS256"@ {
                Err(unsupported(header.alg))
            } else {
                match claims_of(signed.skip(dot + 1)) {
                    None => Err(BAD_CLAIMS@ + part_fault(signed.skip(dot + 1), true)),
                    Some(claims) => {
                        let at = place(believed, claims.iss);
                        if at >= believed.len() {
                            Err(unlisted(claims.iss))
                        } else if !is_for(claims.all, dialling_from) {
                            Err(WRONG_AUDIENCE@)
                        } else {
                            match untimely(claims, now) {
                                Some(why) => Err(why),
                                None => Ok(
                                    PresentedView {
                                        issuer: believed[at],
                                        kid: header.kid,
                                        signed,
                                        signature: token.skip(last + 1),
                                        claims,
                                    },
                                ),
                            }
                        }
                    },
                }
            },
        }
    }
}

/// Finds the issuer with this `iss`.
fn find_issuer(list: &[Issuer], url: &str) -> (r: Option<usize>)
    ensures
        match r {
            Some(i) => i < list@.len() && i == place(issuers(list@), url@),
            None => place(issuers(list@), url@) >= list@.len(),
        },
{
    let ghost all = issuers(list@);
    let mut i: usize = 0;
    assert(all.skip(0) =~= all);
    while i < list.len()
        invariant
            i <= list@.len(),
            all == issuers(list@),
            place(all, url@) == i + place(all.skip(i as int), url@),
        decreases list@.len() - i,
    {
        assert(all.skip(i as int)[0] == list@[i as int]@);
        assert(all.skip(i as int).drop_first() =~= all.skip(i as int + 1));
        if text::same(list[i].url.as_str(), url) {
            return Some(i);
        }
        i = i + 1;
    }
    None
}

/// Reads a token as far as it can be read before its signature is looked at.
pub fn present(list: &[Issuer], token: &str, dialling_from: &str, now: u64) -> (r: Result<
    Presented,
    String,
>)
    ensures
        match r {
            Ok(p) => presented(issuers(list@), token@, dialling_from@, now) == Ok::<
                PresentedView,
                Seq<char>,
            >(p@),
            Err(why) => presented(issuers(list@), token@, dialling_from@, now) == Err::<
                PresentedView,
                Seq<char>,
            >(why@),
        },
{
    proof {
        text::lemma_last_place_of(token@, '.');
    }
    let last = match text::find_last(token, '.') {
        Some(last) => last,
        None => return Err(NO_SIGNATURE.to_owned()),
    };
    let size: usize = token.unicode_len();
    let signed = text::slice(token, 0, last);
    let signature = text::slice(token, last + 1, size);
    assert(signed@ =~= token@.take(last as int));
    assert(signature@ =~= token@.skip(last as int + 1));
    proof {
        text::lemma_place_of(signed@, '.');
    }
    let dot = match text::find_first(signed, '.') {
        Some(dot) => dot,
        None => return Err(NO_PAYLOAD.to_owned()),
    };
    let head = text::slice(signed, 0, dot);
    let payload = text::slice(signed, dot + 1, last);
    assert(head@ =~= signed@.take(dot as int));
    assert(payload@ =~= signed@.skip(dot as int + 1));
    let header = match read_header(head) {
        Some(header) => header,
        None => return Err(complain(BAD_HEADER, head, false)),
    };
    if !text::same(header.alg.as_str(), "RS256") {
        let mut why = String::from_str("unsupported token algorithm ");
        why.append(text::quoted(header.alg.as_str()).as_str());
        why.append("; only RS256");
        return Err(why);
    }
    let claims = match read_claims(payload) {
        Some(claims) => claims,
        None => return Err(complain(BAD_CLAIMS, payload, true)),
    };
    let at = match find_issuer(list, claims.iss.as_str()) {
        Some(at) => at,
        None => {
            let mut why = String::from_str("no issuer configured for ");
            why.append(text::quoted(claims.iss.as_str()).as_str());
            why.append(" — the host lists them in issuers.toml");
            return Err(why);
        },
    };
    if !claims.audience(dialling_from) {
        return Err(WRONG_AUDIENCE.to_owned());
    }
    if let Err(why) = timely(&claims, now) {
        return Err(why);
    }
    Ok(
        Presented {
            issuer: list[at].copied(),
            kid: header.kid,
            signed: signed.to_owned(),
            signature: signature.to_owned(),
            claims,
        },
    )
}

// ---------------------------------------------------------------------------
// the keys an issuer signs with
// ---------------------------------------------------------------------------

/// An RSA public key: modulus and exponent, big-endian.
#[derive(Debug, Clone)]
pub struct Rsa {
    pub n: Vec<u8>,
    pub e: Vec<u8>,
}

#[verifier::ext_equal]
pub struct RsaView {
    pub n: Seq<u8>,
    pub e: Seq<u8>,
}

impl View for Rsa {
    type V = RsaView;

    open spec fn view(&self) -> RsaView {
        RsaView { n: self.n@, e: self.e@ }
    }
}

pub struct Keys {
    pub by_kid: Table<Rsa>,
    pub fetched_at: u64,
}

#[verifier::ext_equal]
pub struct KeysView {
    pub by_kid: Map<Seq<char>, RsaView>,
    pub fetched_at: u64,
}

impl View for Keys {
    type V = KeysView;

    open spec fn view(&self) -> KeysView {
        KeysView { by_kid: self.by_kid.dict(), fetched_at: self.fetched_at }
    }
}

/// One entry of a published key set: what it can verify, and under which name, where it is a
/// key that can sign a token accepted here. A key set legitimately carries others. An error
/// where the entry is not what a key set holds.
pub open spec fn entry_of(item: Seq<char>) -> Result<Option<(Seq<char>, RsaView)>, ()> {
    match json::fields_of(item, seq!["kty"@, "kid"@, "n"@, "e"@]) {
        Some(fields) => match (
            json::text_member(fields, "kty"@),
            json::optional_text(fields, "kid"@),
            json::optional_text(fields, "n"@),
            json::optional_text(fields, "e"@),
        ) {
            (Ok(kty), Ok(kid), Ok(n), Ok(e)) => Ok(usable(kty, kid, n, e)),
            _ => Err(()),
        },
        None => Err(()),
    }
}

pub open spec fn usable(
    kty: Option<Seq<char>>,
    kid: Option<Seq<char>>,
    n: Option<Seq<char>>,
    e: Option<Seq<char>>,
) -> Option<(Seq<char>, RsaView)> {
    match (kty, n, e) {
        (Some(kty), Some(n), Some(e)) => match (bytes_of(n), bytes_of(e)) {
            (Ok(n), Ok(e)) => if kty == "RSA"@ {
                Some(
                    (
                        match kid {
                            Some(kid) => kid,
                            None => Seq::empty(),
                        },
                        RsaView { n, e },
                    ),
                )
            } else {
                None
            },
            _ => None,
        },
        _ => None,
    }
}

fn read_entry(item: &str) -> (r: Result<Option<(String, Rsa)>, ()>)
    ensures
        match r {
            Ok(Some(entry)) => entry_of(item@) matches Ok(Some(e)) && e.0 == entry.0@ && e.1
                == entry.1@,
            Ok(None) => entry_of(item@) matches Ok(None),
            Err(_) => entry_of(item@) is Err,
        },
{
    let names = vec!["kty", "kid", "n", "e"];
    assert(json::names_of(names@) =~= seq!["kty"@, "kid"@, "n"@, "e"@]);
    let fields = match json::fields(item, names) {
        Some(fields) => fields,
        None => return Err(()),
    };
    let kty = match json::find_text(fields.as_slice(), "kty") {
        Ok(kty) => kty,
        Err(_) => return Err(()),
    };
    let kid = match json::find_optional_text(fields.as_slice(), "kid") {
        Ok(kid) => kid,
        Err(_) => return Err(()),
    };
    let n = match json::find_optional_text(fields.as_slice(), "n") {
        Ok(n) => n,
        Err(_) => return Err(()),
    };
    let e = match json::find_optional_text(fields.as_slice(), "e") {
        Ok(e) => e,
        Err(_) => return Err(()),
    };
    let (kty, n, e) = match (kty, n, e) {
        (Some(kty), Some(n), Some(e)) => (kty, n, e),
        _ => return Ok(None),
    };
    if !text::same(kty.as_str(), "RSA") {
        return Ok(None);
    }
    let n = match b64(n.as_str()) {
        Ok(n) => n,
        Err(_) => return Ok(None),
    };
    let e = match b64(e.as_str()) {
        Ok(e) => e,
        Err(_) => return Ok(None),
    };
    let kid = match kid {
        Some(kid) => kid,
        None => String::new(),
    };
    Ok(Some((kid, Rsa { n, e })))
}

/// The keys of a list of entries, by name: of those that share a name, the last.
pub open spec fn keys_in(items: Seq<Seq<char>>) -> Result<Map<Seq<char>, RsaView>, ()>
    decreases items.len(),
{
    if items.len() == 0 {
        Ok(Map::empty())
    } else {
        match (keys_in(items.drop_last()), entry_of(items.last())) {
            (Ok(known), Ok(Some(entry))) => Ok(known.insert(entry.0, entry.1)),
            (Ok(known), Ok(None)) => Ok(known),
            _ => Err(()),
        }
    }
}

proof fn lemma_keys_in_error_stays(items: Seq<Seq<char>>, i: int)
    requires
        0 <= i <= items.len(),
        keys_in(items.take(i)) is Err,
    ensures
        keys_in(items) is Err,
    decreases items.len() - i,
{
    if i < items.len() {
        assert(items.take(i + 1).drop_last() =~= items.take(i));
        lemma_keys_in_error_stays(items, i + 1);
    } else {
        assert(items.take(i) =~= items);
    }
}

pub const BAD_KEY_SET: &'static str = "the key set was not JSON";

pub open spec fn no_keys(jwks: Seq<char>) -> Seq<char> {
    jwks + " published no usable RSA keys"@
}

/// The entries that a published key set lists, where it is one.
pub open spec fn entries_of(body: Seq<char>) -> Option<Seq<Seq<char>>> {
    match json::fields_of(body, seq!["keys"@]) {
        Some(fields) => match json::member(fields, "keys"@) {
            None => Some(Seq::empty()),
            Some(list) => json::list_of(list),
        },
        None => None,
    }
}

/// What a published key set gives to verify with.
pub open spec fn key_set(body: Seq<char>, jwks: Seq<char>) -> Result<
    Map<Seq<char>, RsaView>,
    Seq<char>,
> {
    match entries_of(body) {
        None => Err(BAD_KEY_SET@ + json::fault_of(json::skimmed(vstd::utf8::encode_utf8(body)))),
        Some(items) => match keys_in(items) {
            Err(_) => Err(BAD_KEY_SET@ + json::fault_of(json::skimmed(vstd::utf8::encode_utf8(body)))),
            Ok(known) => if known.dom() =~= Set::empty() {
                Err(no_keys(jwks))
            } else {
                Ok(known)
            },
        },
    }
}

fn read_entries(body: &str) -> (r: Option<Vec<String>>)
    ensures
        match r {
            Some(items) => entries_of(body@) == Some(text::texts(items@)),
            None => entries_of(body@) is None,
        },
{
    let names = vec!["keys"];
    assert(json::names_of(names@) =~= seq!["keys"@]);
    let fields = match json::fields(body, names) {
        Some(fields) => fields,
        None => return None,
    };
    match json::find(fields.as_slice(), "keys") {
        None => {
            let none: Vec<String> = Vec::new();
            assert(text::texts(none@) =~= Seq::<Seq<char>>::empty());
            Some(none)
        },
        Some(list) => json::list(list),
    }
}

fn complain_of_keys(body: &str) -> (r: String)
    ensures
        r@ == BAD_KEY_SET@ + json::fault_of(json::skimmed(vstd::utf8::encode_utf8(body@))),
{
    let mut why = BAD_KEY_SET.to_owned();
    why.append(json::form_fault(body.as_bytes()).as_str());
    why
}

impl Keys {
    /// Reads what was published at `jwks`.
    pub fn read(body: &str, jwks: &str, fetched_at: u64) -> (r: Result<Self, String>)
        ensures
            match r {
                Ok(keys) => key_set(body@, jwks@) matches Ok(known) && keys@ == (KeysView {
                    by_kid: known,
                    fetched_at,
                }),
                Err(why) => key_set(body@, jwks@) matches Err(e) && e == why@,
            },
    {
        let items = match read_entries(body) {
            Some(items) => items,
            None => return Err(complain_of_keys(body)),
        };
        let ghost all = text::texts(items@);
        let mut by_kid: Table<Rsa> = Table::new();
        for i in 0..items.len()
            invariant
                all == text::texts(items@),
                entries_of(body@) == Some(all),
                keys_in(all.take(i as int)) == Ok::<Map<Seq<char>, RsaView>, ()>(by_kid.dict()),
        {
            assert(all.take(i as int + 1).drop_last() =~= all.take(i as int));
            assert(all.take(i as int + 1).last() == items@[i as int]@);
            match read_entry(items[i].as_str()) {
                Ok(Some((kid, key))) => by_kid.insert(kid, key),
                Ok(None) => {},
                Err(_) => {
                    proof {
                        lemma_keys_in_error_stays(all, i as int + 1);
                    }
                    return Err(complain_of_keys(body));
                },
            }
        }
        assert(all.take(items@.len() as int) =~= all);
        let size: usize = by_kid.len();
        if size == 0 {
            assert(by_kid.dict().dom() =~= Set::<Seq<char>>::empty());
            let mut why = jwks.to_owned();
            why.append(" published no usable RSA keys");
            return Err(why);
        }
        proof {
            table::lemma_entry(by_kid@, 0);
        }
        Ok(Keys { by_kid, fetched_at })
    }
}

/// Are these keys recent enough to be used without asking again?
pub open spec fn fresh(keys: KeysView, now: u64) -> bool {
    now - keys.fetched_at < KEYS_FOR_SECS
}

/// The key that a token says it was signed with. One key and no name is a legitimate, if
/// terse, key set.
pub open spec fn signer(by_kid: Map<Seq<char>, RsaView>, kid: Option<Seq<char>>) -> Option<RsaView> {
    let name = match kid {
        Some(kid) => kid,
        None => Seq::empty(),
    };
    if by_kid.dom().contains(name) {
        Some(by_kid[name])
    } else if by_kid.dom().len() == 1 {
        Some(by_kid[by_kid.dom().choose()])
    } else {
        None
    }
}

impl Keys {
    fn find(&self, kid: &Option<String>) -> (r: Option<&Rsa>)
        ensures
            ({
                let name = match *kid {
                    Some(kid) => Some(kid@),
                    None => None,
                };
                match r {
                    Some(key) => signer(self@.by_kid, name) == Some(key@),
                    None => signer(self@.by_kid, name) is None,
                }
            }),
    {
        let found = match kid {
            Some(kid) => self.by_kid.get(kid.as_str()),
            None => {
                proof {
                    reveal_strlit("");
                    assert(""@ =~= Seq::<char>::empty());
                }
                self.by_kid.get("")
            },
        };
        if let Some(key) = found {
            return Some(key);
        }
        let size: usize = self.by_kid.len();
        proof {
            table::lemma_keys_finite(self.by_kid@);
            assert(self.by_kid.dict().dom() =~= table::keys_of(self.by_kid@));
        }
        if size != 1 {
            return None;
        }
        proof {
            table::lemma_entry(self.by_kid@, 0);
            let only = self.by_kid.dict().dom().choose();
            let first = self.by_kid@[0].0;
            if only != first {
                assert(self.by_kid.dict().dom().remove(first).contains(only));
                assert(self.by_kid.dict().dom().remove(first).len() == 0);
            }
        }
        Some(self.by_kid.value_at(0))
    }
}

// ---------------------------------------------------------------------------
// what a verified token establishes
// ---------------------------------------------------------------------------

/// Does an RSA key verify a signature over a message, in PKCS#1 with SHA-256 and a modulus of
/// 2048 to 8192 bits?
pub uninterp spec fn verifies(
    n: Seq<u8>,
    e: Seq<u8>,
    message: Seq<u8>,
    signature: Seq<u8>,
) -> bool;

/// The longest message, in bytes, that is looked at.
pub open spec fn hashable(message: Seq<u8>) -> bool {
    message.len() <= usize::MAX / 8
}

/// `ring::signature::RsaPublicKeyComponents::verify` under `RSA_PKCS1_2048_8192_SHA256`: the
/// same answer for the same key, message and signature every time. It panics on a message too
/// long for SHA-256 to count the bits of, which the length asked for here leaves out.
#[verifier::external_body]
fn rsa_verify(n: &[u8], e: &[u8], message: &[u8], signature: &[u8]) -> (r: bool)
    requires
        hashable(message@),
    ensures
        r == verifies(n@, e@, message@, signature@),
{
    ring::signature::RsaPublicKeyComponents { n, e }
        .verify(&ring::signature::RSA_PKCS1_2048_8192_SHA256, message, signature)
        .is_ok()
}

/// What a verified attestation established.
pub struct Vouched {
    /// `<issuer name>:<subject claim>`. What a tenant lists among its members.
    pub alias: String,
    /// Whether this issuer is one whose tokens may enrol a key.
    pub may_enrol: bool,
    /// The claims this issuer was configured to carry through. Proven, so a policy may turn on
    /// them, and the caller cannot alter one.
    pub facts: Table<String>,
}

#[verifier::ext_equal]
pub struct VouchedView {
    pub alias: Seq<char>,
    pub may_enrol: bool,
    pub facts: Map<Seq<char>, Seq<char>>,
}

impl View for Vouched {
    type V = VouchedView;

    open spec fn view(&self) -> VouchedView {
        VouchedView {
            alias: self.alias@,
            may_enrol: self.may_enrol,
            facts: self.facts.dict(),
        }
    }
}

/// The facts that the named claims add to those at hand.
pub open spec fn carried(
    facts: Map<Seq<char>, Seq<char>>,
    names: Seq<Seq<char>>,
    all: Seq<(Seq<char>, Seq<char>)>,
) -> Map<Seq<char>, Seq<char>>
    decreases names.len(),
{
    if names.len() == 0 {
        facts
    } else {
        let so_far = carried(facts, names.drop_last(), all);
        match claim_of(all, names.last()) {
            Some(value) => so_far.insert(names.last(), value),
            None => so_far,
        }
    }
}

pub open spec fn no_key(issuer: Seq<char>, kid: Option<Seq<char>>) -> Seq<char> {
    issuer + " published no key with kid "@ + text::quoted_of(
        match kid {
            Some(kid) => kid,
            None => "(none)"@,
        },
    )
}

pub open spec fn no_subject(claim: Seq<char>) -> Seq<char> {
    "this token has no "@ + text::quoted_of(claim) + " claim to identify it by"@
}

pub open spec fn not_allowed(subject: Seq<char>, issuer: Seq<char>) -> Seq<char> {
    text::quoted_of(subject) + " is not one of the subjects `"@ + issuer + "` may vouch for"@
}

/// May an issuer vouch for this subject?
pub open spec fn allowed(allow: Seq<Seq<char>>, subject: Seq<char>) -> bool {
    exists|i: int| 0 <= i < allow.len() && fits(#[trigger] allow[i], subject)
}

/// Is a token's signature one of the key's?
pub open spec fn signed_by(p: PresentedView, key: RsaView, signature: Seq<u8>) -> bool {
    &&& hashable(vstd::utf8::encode_utf8(p.signed))
    &&& verifies(key.n, key.e, vstd::utf8::encode_utf8(p.signed), signature)
}

/// What a token establishes under a key set, or why it does not.
pub open spec fn vouched(p: PresentedView, by_kid: Map<Seq<char>, RsaView>) -> Result<
    VouchedView,
    Seq<char>,
> {
    match signer(by_kid, p.kid) {
        None => Err(no_key(p.issuer.name, p.kid)),
        Some(key) => match bytes_of(p.signature) {
            Err(why) => Err(BAD_SIGNATURE@ + (": "@ + why)),
            Ok(signature) => if !signed_by(p, key, signature) {
                Err(UNVERIFIED@)
            } else {
                match claim_of(p.claims.all, p.issuer.subject) {
                    None => Err(no_subject(p.issuer.subject)),
                    Some(subject) => if !allowed(p.issuer.allow, subject) {
                        Err(not_allowed(subject, p.issuer.name))
                    } else {
                        Ok(established(p, subject))
                    },
                }
            },
        },
    }
}

/// What a verified token establishes of its subject.
pub open spec fn established(p: PresentedView, subject: Seq<char>) -> VouchedView {
    VouchedView {
        alias: p.issuer.name + ":"@ + subject,
        may_enrol: p.issuer.enrol,
        facts: carried(
            Map::empty().insert("issuer"@, p.issuer.name).insert(p.issuer.subject, subject),
            p.issuer.facts,
            p.claims.all,
        ),
    }
}

fn allows(allow: &[String], subject: &str) -> (r: bool)
    ensures
        r == allowed(text::texts(allow@), subject@),
{
    let ghost all = text::texts(allow@);
    for i in 0..allow.len()
        invariant
            all == text::texts(allow@),
            forall|k: int| 0 <= k < i ==> !fits(#[trigger] all[k], subject@),
    {
        assert(all[i as int] == allow@[i as int]@);
        if matching(allow[i].as_str(), subject) {
            return true;
        }
    }
    false
}

/// Verifies what a token presents with an issuer's keys, and says whom it proves the caller to
/// be.
pub fn vouch(p: &Presented, keys: &Keys) -> (r: Result<Vouched, String>)
    ensures
        match r {
            Ok(v) => vouched(p@, keys@.by_kid) matches Ok(w) && v@ == w,
            Err(why) => vouched(p@, keys@.by_kid) matches Err(e) && why@ == e,
        },
{
    let key = match keys.find(&p.kid) {
        Some(key) => key,
        None => {
            let mut why = p.issuer.name.clone();
            why.append(" published no key with kid ");
            match &p.kid {
                Some(kid) => why.append(text::quoted(kid.as_str()).as_str()),
                None => why.append(text::quoted("(none)").as_str()),
            }
            return Err(why);
        },
    };
    let signature = match b64(p.signature.as_str()) {
        Ok(signature) => signature,
        Err(cause) => {
            let mut why = BAD_SIGNATURE.to_owned();
            why.append(": ");
            why.append(cause.as_str());
            assert(why@ =~= BAD_SIGNATURE@ + (": "@ + cause@));
            return Err(why);
        },
    };
    let message = p.signed.as_str().as_bytes();
    if message.len() > usize::MAX / 8 {
        return Err(UNVERIFIED.to_owned());
    }
    if !rsa_verify(key.n.as_slice(), key.e.as_slice(), message, signature.as_slice()) {
        return Err(UNVERIFIED.to_owned());
    }
    let subject = match p.claims.claim(p.issuer.subject.as_str()) {
        Some(subject) => subject,
        None => {
            let mut why = String::from_str("this token has no ");
            why.append(text::quoted(p.issuer.subject.as_str()).as_str());
            why.append(" claim to identify it by");
            return Err(why);
        },
    };
    if !allows(p.issuer.allow.as_slice(), subject.as_str()) {
        let mut why = text::quoted(subject.as_str());
        why.append(" is not one of the subjects `");
        why.append(p.issuer.name.as_str());
        why.append("` may vouch for");
        return Err(why);
    }
    let mut facts: Table<String> = Table::new();
    facts.insert("issuer".to_owned(), p.issuer.name.clone());
    facts.insert(p.issuer.subject.clone(), subject.clone());
    let ghost before = facts.dict();
    let ghost names = text::texts(p.issuer.facts@);
    assert(names.take(0) =~= Seq::<Seq<char>>::empty());
    for i in 0..p.issuer.facts.len()
        invariant
            names == text::texts(p.issuer.facts@),
            facts.dict() == carried(before, names.take(i as int), p@.claims.all),
    {
        assert(names.take(i as int + 1).drop_last() =~= names.take(i as int));
        assert(names.take(i as int + 1).last() == p.issuer.facts@[i as int]@);
        if let Some(value) = p.claims.claim(p.issuer.facts[i].as_str()) {
            facts.insert(p.issuer.facts[i].clone(), value);
        }
    }
    assert(names.take(names.len() as int) =~= names);
    let mut alias = p.issuer.name.clone();
    alias.append(":");
    alias.append(subject.as_str());
    Ok(Vouched { alias, may_enrol: p.issuer.may_enrol(), facts })
}

// ---------------------------------------------------------------------------
// the issuers of one controller
// ---------------------------------------------------------------------------

/// Who is believed, and the keys that were fetched of each so far.
pub struct Issuers {
    pub config: Config,
    pub cached: Table<Keys>,
}

#[verifier::ext_equal]
pub struct IssuersView {
    pub believed: Seq<IssuerView>,
    pub cached: Map<Seq<char>, KeysView>,
}

impl View for Issuers {
    type V = IssuersView;

    open spec fn view(&self) -> IssuersView {
        IssuersView { believed: issuers(self.config.issuers@), cached: self.cached.dict() }
    }
}

pub open spec fn allows_nothing(path: Seq<char>, issuer: Seq<char>) -> Seq<char> {
    path + ": issuer `"@ + issuer
        + "` allows nothing, so it can never vouch for anybody — say which subjects it may name, such as `allow = [\"acme/*\"]`"@
}

/// The first issuer of a list that allows nothing, or the end where there is none.
pub open spec fn mute(list: Seq<IssuerView>) -> int
    decreases list.len(),
{
    if list.len() == 0 || list[0].allow.len() == 0 {
        0
    } else {
        1 + mute(list.drop_first())
    }
}

/// How one issuer is listed for a person.
pub open spec fn shown(i: IssuerView) -> Seq<char> {
    i.name + " ("@ + text::joined(i.allow, ", "@) + ")"@
}

/// What a token that was let through or refused leaves to be done.
pub enum Step {
    Refused(String),
    /// The issuer's keys have to be fetched first.
    Fetch(Presented),
    Settled(Vouched),
}

#[verifier::ext_equal]
pub enum StepView {
    Refused(Seq<char>),
    Fetch(PresentedView),
    Settled(VouchedView),
}

impl View for Step {
    type V = StepView;

    open spec fn view(&self) -> StepView {
        match *self {
            Step::Refused(why) => StepView::Refused(why@),
            Step::Fetch(p) => StepView::Fetch(p@),
            Step::Settled(v) => StepView::Settled(v@),
        }
    }
}

/// What comes of a token at a moment.
pub open spec fn verified(
    known: IssuersView,
    token: Seq<char>,
    dialling_from: Seq<char>,
    now: u64,
) -> StepView {
    match presented(known.believed, token, dialling_from, now) {
        Err(why) => StepView::Refused(why),
        Ok(p) => if known.cached.dom().contains(p.issuer.name) && fresh(
            known.cached[p.issuer.name],
            now,
        ) {
            match vouched(p, known.cached[p.issuer.name].by_kid) {
                Ok(v) => StepView::Settled(v),
                Err(why) => StepView::Refused(why),
            }
        } else {
            StepView::Fetch(p)
        },
    }
}

/// What asking for an issuer's keys gave.
pub open spec fn keys_told(fetched: Result<Keys, String>) -> Result<KeysView, Seq<char>> {
    match fetched {
        Ok(keys) => Ok(keys@),
        Err(cause) => Err(cause@),
    }
}

/// Whom a token was found to prove, or why it proves nobody.
pub open spec fn answer(vouched: Result<Vouched, String>) -> Result<VouchedView, Seq<char>> {
    match vouched {
        Ok(v) => Ok(v@),
        Err(why) => Err(why@),
    }
}

/// What going on with a token did and returned, once the issuer's keys were asked for: they are
/// kept where they came, and those at hand decide where they did not.
pub open spec fn resumed(
    before: IssuersView,
    after: IssuersView,
    p: PresentedView,
    fetched: Result<KeysView, Seq<char>>,
    result: Result<VouchedView, Seq<char>>,
) -> bool {
    &&& after.believed == before.believed
    &&& after.cached == match fetched {
        Ok(keys) => before.cached.insert(p.issuer.name, keys),
        Err(_) => before.cached,
    }
    &&& if after.cached.dom().contains(p.issuer.name) {
        result == vouched(p, after.cached[p.issuer.name].by_kid)
    } else {
        &&& fetched matches Err(cause)
        &&& result == Err::<VouchedView, Seq<char>>(unfetched(p.issuer.name, cause))
    }
}

pub open spec fn unfetched(issuer: Seq<char>, cause: Seq<char>) -> Seq<char> {
    "fetching "@ + issuer + "'s signing keys: "@ + cause
}

impl Issuers {
    /// The issuers that the host wrote down at `path`. One that allows nothing is refused, as
    /// it would refuse every caller without an explanation.
    pub fn load(path: &str, config: Config) -> (r: Result<Self, String>)
        ensures
            match r {
                Ok(s) => {
                    &&& mute(issuers(config.issuers@)) == config.issuers@.len()
                    &&& s.config == config
                    &&& s@.cached == Map::<Seq<char>, KeysView>::empty()
                },
                Err(why) => {
                    &&& mute(issuers(config.issuers@)) < config.issuers@.len()
                    &&& why@ == allows_nothing(
                        path@,
                        config.issuers@[mute(issuers(config.issuers@))].name@,
                    )
                },
            },
    {
        let ghost all = issuers(config.issuers@);
        assert(all.skip(0) =~= all);
        for i in 0..config.issuers.len()
            invariant
                all == issuers(config.issuers@),
                mute(all) == i + mute(all.skip(i as int)),
        {
            assert(all.skip(i as int)[0] == config.issuers@[i as int]@);
            assert(all.skip(i as int).drop_first() =~= all.skip(i as int + 1));
            if config.issuers[i].allow.len() == 0 {
                let mut why = path.to_owned();
                why.append(": issuer `");
                why.append(config.issuers[i].name.as_str());
                why.append(
                    "` allows nothing, so it can never vouch for anybody — say which subjects it may name, such as `allow = [\"acme/*\"]`",
                );
                return Err(why);
            }
        }
        Ok(Issuers { config, cached: Table::new() })
    }

    pub fn path_in(root: &str) -> (r: String)
        ensures
            r@ == path::join_of(root@, FILE@),
    {
        path::join(root, FILE)
    }

    pub fn is_empty(&self) -> (r: bool)
        ensures
            r == (self@.believed.len() == 0),
    {
        self.config.issuers.len() == 0
    }

    /// How the issuers are listed for a person.
    pub open spec fn described(&self) -> Seq<char> {
        if self@.believed.len() == 0 {
            "none — only this organisation's own devices may ask"@
        } else {
            text::joined(self@.believed.map_values(|i: IssuerView| shown(i)), ", "@)
        }
    }

    pub fn describe(&self) -> (r: String)
        ensures
            r@ == self.described(),
    {
        if self.config.issuers.len() == 0 {
            return "none — only this organisation's own devices may ask".to_owned();
        }
        let mut each: Vec<String> = Vec::new();
        for i in 0..self.config.issuers.len()
            invariant
                each@.len() == i,
                forall|k: int|
                    0 <= k < i ==> (#[trigger] each@[k])@ == shown(self.config.issuers@[k]@),
        {
            let issuer = &self.config.issuers[i];
            let mut one = issuer.name.clone();
            one.append(" (");
            one.append(text::join(issuer.allow.as_slice(), ", ").as_str());
            one.append(")");
            each.push(one);
        }
        assert(text::texts(each@) =~= self@.believed.map_values(|i: IssuerView| shown(i)));
        text::join(each.as_slice(), ", ")
    }

    /// Verifies a token as it stands at a moment, as far as the keys at hand allow.
    ///
    /// `dialling_from` is the caller's own connection key. Everything about replay protection
    /// is that one comparison.
    pub fn verify_at(&self, token: &str, dialling_from: &str, now: u64) -> (r: Step)
        ensures
            r@ == verified(self@, token@, dialling_from@, now),
    {
        let p = match present(self.config.issuers.as_slice(), token, dialling_from, now) {
            Ok(p) => p,
            Err(why) => return Step::Refused(why),
        };
        if let Some(keys) = self.cached.get(p.issuer.name.as_str()) {
            if now < keys.fetched_at || now - keys.fetched_at < KEYS_FOR_SECS {
                return match vouch(&p, keys) {
                    Ok(v) => Step::Settled(v),
                    Err(why) => Step::Refused(why),
                };
            }
        }
        Step::Fetch(p)
    }

    /// Verifies a token now.
    pub fn verify(&self, token: &str, dialling_from: &str) -> (r: Step)
        ensures
            exists|now: u64| r@ == #[trigger] verified(self@, token@, dialling_from@, now),
    {
        let now = fleet::now();
        self.verify_at(token, dialling_from, now)
    }

    /// Goes on once the issuer's keys were asked for.
    ///
    /// A failed refresh keeps serving the keys already held: a provider being briefly
    /// unreachable should not stop a fleet, and the keys are still theirs.
    pub fn resume(&mut self, p: &Presented, fetched: Result<Keys, String>) -> (r: Result<
        Vouched,
        String,
    >)
        ensures
            final(self).config == old(self).config,
            resumed(
                old(self)@,
                final(self)@,
                p@,
                keys_told(fetched),
                answer(r),
            ),
    {
        let cause = match fetched {
            Ok(keys) => {
                self.cached.insert(p.issuer.name.clone(), keys);
                String::new()
            },
            Err(cause) => cause,
        };
        match self.cached.get(p.issuer.name.as_str()) {
            Some(keys) => vouch(p, keys),
            None => {
                let mut why = String::from_str("fetching ");
                why.append(p.issuer.name.as_str());
                why.append("'s signing keys: ");
                why.append(cause.as_str());
                Err(why)
            },
        }
    }
}

// ---------------------------------------------------------------------------
// laws
// ---------------------------------------------------------------------------

proof fn lemma_place(list: Seq<IssuerView>, url: Seq<char>)
    ensures
        0 <= place(list, url) <= list.len(),
        place(list, url) < list.len() ==> list[place(list, url)].url == url,
    decreases list.len(),
{
    if list.len() > 0 && list[0].url != url {
        lemma_place(list.drop_first(), url);
    }
}

/// A token is listened to only by the key it was made for, only while it is good, and only
/// where its `iss` is, to the letter, that of an issuer believed here.
pub proof fn law_a_token_is_for_one_key_one_time_and_one_issuer(
    known: IssuersView,
    token: Seq<char>,
    dialling_from: Seq<char>,
    now: u64,
)
    ensures
        verified(known, token, dialling_from, now) is Refused || exists|p: PresentedView|
            {
                &&& #[trigger] presented(known.believed, token, dialling_from, now) == Ok::<
                    PresentedView,
                    Seq<char>,
                >(p)
                &&& is_for(p.claims.all, dialling_from)
                &&& p.claims.exp matches Some(exp)
                &&& now < exp
                &&& known.believed.contains(p.issuer)
                &&& p.issuer.url == p.claims.iss
            },
{
    if let Ok(p) = presented(known.believed, token, dialling_from, now) {
        lemma_place(known.believed, p.claims.iss);
        assert(known.believed.contains(p.issuer));
        assert(presented(known.believed, token, dialling_from, now) == Ok::<
            PresentedView,
            Seq<char>,
        >(p));
    }
}

proof fn lemma_carried(
    facts: Map<Seq<char>, Seq<char>>,
    names: Seq<Seq<char>>,
    all: Seq<(Seq<char>, Seq<char>)>,
    name: Seq<char>,
)
    requires
        carried(facts, names, all).dom().contains(name),
    ensures
        (facts.dom().contains(name) && carried(facts, names, all)[name] == facts[name]) || claim_of(
            all,
            name,
        ) == Some(carried(facts, names, all)[name]),
    decreases names.len(),
{
    if names.len() > 0 {
        if carried(facts, names.drop_last(), all).dom().contains(name) {
            lemma_carried(facts, names.drop_last(), all, name);
        }
    }
}

/// Whom a token vouches for is a subject that its issuer may name, said by a token that one of
/// the issuer's keys has signed.
pub proof fn law_an_issuer_vouches_only_for_what_it_signed_and_may_name(
    p: PresentedView,
    by_kid: Map<Seq<char>, RsaView>,
    v: VouchedView,
)
    requires
        vouched(p, by_kid) == Ok::<VouchedView, Seq<char>>(v),
        by_kid.dom().finite(),
    ensures
        exists|kid: Seq<char>, signature: Seq<u8>|
            by_kid.dom().contains(kid) && #[trigger] signed_by(p, by_kid[kid], signature),
        exists|subject: Seq<char>|
            {
                &&& claim_of(p.claims.all, p.issuer.subject) == Some(subject)
                &&& #[trigger] allowed(p.issuer.allow, subject)
                &&& v.alias == p.issuer.name + ":"@ + subject
            },
        v.may_enrol == p.issuer.enrol,
{
    let key = signer(by_kid, p.kid)->0;
    let signature = bytes_of(p.signature)->Ok_0;
    let subject = claim_of(p.claims.all, p.issuer.subject)->0;
    assert(signed_by(p, key, signature));
    assert(allowed(p.issuer.allow, subject));
    let name = match p.kid {
        Some(kid) => kid,
        None => Seq::<char>::empty(),
    };
    if by_kid.dom().contains(name) {
        assert(signed_by(p, by_kid[name], signature));
    } else {
        let only = by_kid.dom().choose();
        assert(by_kid.dom().contains(only)) by {
            if by_kid.dom() =~= Set::<Seq<char>>::empty() {
                assert(by_kid.dom().len() == 0);
            }
        }
        assert(signed_by(p, by_kid[only], signature));
    }
}

/// Every fact that is carried through is the issuer's name, or a claim of the token that was
/// verified.
pub proof fn law_every_fact_is_a_proven_claim(
    p: PresentedView,
    by_kid: Map<Seq<char>, RsaView>,
    v: VouchedView,
    name: Seq<char>,
)
    requires
        vouched(p, by_kid) == Ok::<VouchedView, Seq<char>>(v),
        v.facts.dom().contains(name),
    ensures
        (name == "issuer"@ && v.facts[name] == p.issuer.name) || claim_of(p.claims.all, name)
            == Some(v.facts[name]),
{
    let subject = claim_of(p.claims.all, p.issuer.subject)->0;
    let first = Map::<Seq<char>, Seq<char>>::empty().insert("issuer"@, p.issuer.name).insert(
        p.issuer.subject,
        subject,
    );
    lemma_carried(first, p.issuer.facts, p.claims.all, name);
}

/// A pattern without a `*` at either end matches itself and nothing else.
pub proof fn law_a_plain_pattern_matches_itself(pattern: Seq<char>, subject: Seq<char>)
    requires
        pattern.len() > 0 ==> pattern[0] != '*' && pattern.last() != '*',
    ensures
        fits(pattern, subject) <==> pattern == subject,
{
}

/// A `*` at the end of a pattern stands for any ending, and one at its beginning for any
/// beginning.
pub proof fn law_a_star_stands_for_any_end(plain: Seq<char>, subject: Seq<char>)
    requires
        plain.len() > 0,
        plain[0] != '*',
        plain.last() != '*',
    ensures
        fits(plain + "*"@, subject) <==> plain.len() <= subject.len() && subject.take(
            plain.len() as int,
        ) == plain,
        fits("*"@ + plain, subject) <==> plain.len() <= subject.len() && subject.skip(
            subject.len() - plain.len(),
        ) == plain,
{
    reveal_strlit("*");
    let star = "*"@;
    let a = plain + star;
    assert(a.drop_last() =~= plain);
    assert(a[0] == plain[0]);
    let b = star + plain;
    assert(b.drop_first() =~= plain);
    assert(b.last() == plain.last());
}

/// A `*` at both ends of a pattern stands for anything around, and a `*` alone for anything.
pub proof fn law_two_stars_stand_for_anything_around(plain: Seq<char>, subject: Seq<char>)
    requires
        plain.len() > 0,
        plain[0] != '*',
        plain.last() != '*',
    ensures
        fits("*"@ + plain + "*"@, subject) <==> exists|k: int|
            0 <= k && k + plain.len() <= subject.len() && #[trigger] subject.subrange(
                k,
                k + plain.len(),
            ) == plain,
        fits("*"@, subject),
{
    reveal_strlit("*");
    let star = "*"@;
    let a = plain + star;
    assert(a.drop_last() =~= plain);
    assert(a[0] == plain[0]);
    let c = star + plain + star;
    assert(c.drop_first() =~= a);
    assert(text::without_start(a, '*') == a);
    assert(text::without_start(c, '*') == a);
    assert(text::without_end(plain, '*') == plain);
    assert(text::without_end(a, '*') == plain);
    text::lemma_find_from(subject, plain, 0);
    assert(star.drop_first() =~= Seq::<char>::empty());
    assert(text::without_start(star.drop_first(), '*') =~= Seq::<char>::empty());
    assert(text::without_start(star, '*') =~= Seq::<char>::empty());
}

/// A token is good from a minute before it says so, because clocks differ, until the second it
/// names, to the second. One that names no such second is never good.
pub proof fn law_a_token_is_good_while_it_says_so(claims: ClaimsView, now: u64)
    ensures
        untimely(claims, now) is None <==> {
            &&& claims.exp matches Some(exp)
            &&& now < exp
            &&& claims.nbf matches Some(nbf) ==> nbf <= now + 60
            &&& claims.nbf is None ==> (claims.iat matches Some(iat) ==> iat <= now + 60)
        },
{
}

/// A token is for the one key that its audience names, or for each of those that it lists.
pub proof fn law_the_audience_is_the_key_or_lists_it(
    all: Seq<(Seq<char>, Seq<char>)>,
    i: int,
    key: Seq<char>,
)
    requires
        0 <= i < all.len(),
        all[i].0 == "aud"@,
        forall|j: int| i < j < all.len() ==> (#[trigger] all[j]).0 != "aud"@,
    ensures
        match json::json_of(all[i].1) {
            Ok(JsonView::Text(one)) => is_for(all, key) <==> key == one,
            Ok(JsonView::List(many)) => is_for(all, key) <==> exists|k: int|
                0 <= k < many.len() && #[trigger] json::json_of(many[k]) == Ok::<JsonView, Seq<char>>(
                    JsonView::Text(key),
                ),
            _ => !is_for(all, key),
        },
    decreases all.len(),
{
    if i < all.len() - 1 {
        assert(all.last().0 != "aud"@);
        law_the_audience_is_the_key_or_lists_it(all.drop_last(), i, key);
    }
}

/// A token without an audience is for nobody.
pub proof fn law_a_token_without_an_audience_is_for_nobody(
    all: Seq<(Seq<char>, Seq<char>)>,
    key: Seq<char>,
)
    requires
        forall|j: int| 0 <= j < all.len() ==> (#[trigger] all[j]).0 != "aud"@,
    ensures
        !is_for(all, key),
    decreases all.len(),
{
    if all.len() > 0 {
        law_a_token_without_an_audience_is_for_nobody(all.drop_last(), key);
    }
}

/// A token is three parts with dots between: what says how it was signed, what it claims, and
/// the signature of both. It is heard exactly where it was signed in the one way accepted here,
/// an issuer believed here made it, it is for the key it arrived on, and it is good now. Then
/// what has to be verified is everything before the signature, as it arrived.
pub proof fn law_a_token_is_heard_where_everything_is_right(
    believed: Seq<IssuerView>,
    head: Seq<char>,
    body: Seq<char>,
    signature: Seq<char>,
    key: Seq<char>,
    now: u64,
    header: HeaderView,
    claims: ClaimsView,
)
    requires
        text::lacks(head, '.'),
        text::lacks(signature, '.'),
        header_of(head) == Some(header),
        claims_of(body) == Some(claims),
    ensures
        match presented(believed, head + "."@ + body + "."@ + signature, key, now) {
            Ok(p) => {
                &&& header.alg == "RS256"@
                &&& is_for(claims.all, key)
                &&& untimely(claims, now) is None
                &&& exists|i: int|
                    0 <= i < believed.len() && #[trigger] believed[i] == p.issuer && p.issuer.url
                        == claims.iss
                &&& p.signed == head + "."@ + body
                &&& p.signature == signature
                &&& p.kid == header.kid
                &&& p.claims == claims
            },
            Err(_) => {
                ||| header.alg != "RS256"@
                ||| !is_for(claims.all, key)
                ||| untimely(claims, now) is Some
                ||| forall|i: int| 0 <= i < believed.len() ==> (#[trigger] believed[i]).url
                    != claims.iss
            },
        },
{
    reveal_strlit(".");
    let signed = head + "."@ + body;
    let token = head + "."@ + body + "."@ + signature;
    let last = signed.len() as int;
    assert forall|i: int| last < i < token.len() implies #[trigger] token[i] != '.' by {
        assert(token[i] == signature[i - last - 1]);
    }
    text::lemma_last_place_is(token, '.', last);
    assert(token.take(last) =~= signed);
    assert(token.skip(last + 1) =~= signature);
    let dot = head.len() as int;
    assert forall|i: int| 0 <= i < dot implies signed[i] != '.' by {
        assert(signed[i] == head[i]);
    }
    text::lemma_place_is(signed, '.', dot);
    assert(signed.take(dot) =~= head);
    assert(signed.skip(dot + 1) =~= body);
    lemma_place(believed, claims.iss);
    lemma_place_first(believed, claims.iss);
}

proof fn lemma_place_first(list: Seq<IssuerView>, url: Seq<char>)
    ensures
        forall|i: int| 0 <= i < place(list, url) && i < list.len() ==> (#[trigger] list[i]).url != url,
    decreases list.len(),
{
    if list.len() > 0 && list[0].url != url {
        let rest = list.drop_first();
        lemma_place_first(rest, url);
        assert forall|i: int| 0 <= i < place(list, url) && i < list.len() implies (
        #[trigger] list[i]).url != url by {
            if i > 0 {
                assert(rest[i - 1] == list[i]);
            }
        }
    }
}

/// What is no token is refused, and says what it lacks.
pub proof fn law_what_is_no_token_is_refused(
    believed: Seq<IssuerView>,
    token: Seq<char>,
    key: Seq<char>,
    now: u64,
)
    requires
        forall|i: int, j: int|
            0 <= i < j < token.len() ==> !(#[trigger] token[i] == '.' && #[trigger] token[j] == '.'),
    ensures
        presented(believed, token, key, now) is Err,
{
    text::lemma_last_place_of(token, '.');
    let last = text::last_place_of(token, '.');
    if last >= 0 {
        let signed = token.take(last);
        text::lemma_place_of(signed, '.');
    }
}

/// Keys are used for an hour after they were fetched, and are asked for again from then on.
pub proof fn law_keys_are_used_for_an_hour(
    known: IssuersView,
    token: Seq<char>,
    key: Seq<char>,
    now: u64,
    p: PresentedView,
)
    requires
        presented(known.believed, token, key, now) == Ok::<PresentedView, Seq<char>>(p),
    ensures
        ({
            let here = known.cached.dom().contains(p.issuer.name);
            let keys = known.cached[p.issuer.name];
            &&& here && now < keys.fetched_at + 3600 ==> verified(known, token, key, now) == match vouched(
                p,
                keys.by_kid,
            ) {
                Ok(v) => StepView::Settled(v),
                Err(why) => StepView::Refused(why),
            }
            &&& !here || now >= keys.fetched_at + 3600 ==> verified(known, token, key, now)
                == StepView::Fetch(p)
        }),
{
}

/// A key is looked up by the name that a token gives. Where it gives none, or one that is not
/// published, the one key of a set that has only one is taken, and otherwise none.
pub proof fn law_a_token_is_checked_with_the_key_it_names(
    by_kid: Map<Seq<char>, RsaView>,
    kid: Seq<char>,
    other: Seq<char>,
)
    requires
        by_kid.dom().finite(),
    ensures
        by_kid.dom().contains(kid) ==> signer(by_kid, Some(kid)) == Some(by_kid[kid]),
        !by_kid.dom().contains(kid) && by_kid.dom() == set![other] ==> signer(by_kid, Some(kid))
            == Some(by_kid[other]),
        by_kid.dom() == set![other] ==> signer(by_kid, None) == Some(by_kid[other]),
        !by_kid.dom().contains(kid) && by_kid.dom().contains(other) && by_kid.dom().len() != 1
            ==> signer(by_kid, Some(kid)) is None,
{
    if by_kid.dom() == set![other] {
        let only = set![other];
        assert(only.contains(other));
        assert(only.remove(other) =~= Set::empty());
        assert(only.len() == 1);
        assert(by_kid.dom().contains(by_kid.dom().choose()));
        assert(by_kid.dom().choose() == other);
    }
}

/// A token establishes somebody exactly where one of the issuer's keys signed it, it has the
/// claim that the issuer names people by, and what stands there is somebody the issuer may
/// name.
pub proof fn law_a_token_establishes_whom_its_issuer_may_name(
    p: PresentedView,
    by_kid: Map<Seq<char>, RsaView>,
    key: RsaView,
    signature: Seq<u8>,
    subject: Seq<char>,
)
    requires
        signer(by_kid, p.kid) == Some(key),
        bytes_of(p.signature) == Ok::<Seq<u8>, Seq<char>>(signature),
        vstd::utf8::encode_utf8(p.signed).len() <= usize::MAX / 8,
        claim_of(p.claims.all, p.issuer.subject) == Some(subject),
    ensures
        vouched(p, by_kid) is Ok <==> {
            &&& verifies(key.n, key.e, vstd::utf8::encode_utf8(p.signed), signature)
            &&& exists|i: int|
                0 <= i < p.issuer.allow.len() && fits(#[trigger] p.issuer.allow[i], subject)
        },
        vouched(p, by_kid) matches Ok(v) ==> v.alias == p.issuer.name + ":"@ + subject
            && v.may_enrol == p.issuer.enrol,
{
}

/// Every claim that an issuer is set up to carry through is carried through, as the token has
/// it; and so is the claim that names its holder, and the issuer's own name, unless a claim of
/// the same name takes its place.
pub proof fn law_every_claim_asked_for_is_carried(
    p: PresentedView,
    subject: Seq<char>,
    i: int,
    value: Seq<char>,
)
    requires
        claim_of(p.claims.all, p.issuer.subject) == Some(subject),
    ensures
        0 <= i < p.issuer.facts.len() && claim_of(p.claims.all, p.issuer.facts[i]) == Some(value)
            ==> {
            &&& established(p, subject).facts.dom().contains(p.issuer.facts[i])
            &&& established(p, subject).facts[p.issuer.facts[i]] == value
        },
        established(p, subject).facts.dom().contains(p.issuer.subject),
        established(p, subject).facts[p.issuer.subject] == subject,
        established(p, subject).facts.dom().contains("issuer"@),
        p.issuer.subject != "issuer"@ && !p.issuer.facts.contains("issuer"@) ==> established(
            p,
            subject,
        ).facts["issuer"@] == p.issuer.name,
{
    let first = Map::empty().insert("issuer"@, p.issuer.name).insert(p.issuer.subject, subject);
    if 0 <= i < p.issuer.facts.len() {
        lemma_carried_is(first, p.issuer.facts, p.claims.all, p.issuer.facts[i]);
    }
    lemma_carried_is(first, p.issuer.facts, p.claims.all, p.issuer.subject);
    lemma_carried_is(first, p.issuer.facts, p.claims.all, "issuer"@);
}

proof fn lemma_carried_is(
    facts: Map<Seq<char>, Seq<char>>,
    names: Seq<Seq<char>>,
    all: Seq<(Seq<char>, Seq<char>)>,
    name: Seq<char>,
)
    ensures
        ({
            let r = carried(facts, names, all);
            if names.contains(name) && claim_of(all, name) is Some {
                r.dom().contains(name) && r[name] == claim_of(all, name)->0
            } else {
                r.dom().contains(name) == facts.dom().contains(name) && (facts.dom().contains(name)
                    ==> r[name] == facts[name])
            }
        }),
    decreases names.len(),
{
    if names.len() > 0 {
        let less = names.drop_last();
        lemma_carried_is(facts, less, all, name);
        if names.contains(name) && names.last() != name {
            let k = names.index_of(name);
            assert(less[k] == name);
        }
        if less.contains(name) {
            let k = less.index_of(name);
            assert(names[k] == name);
        }
        if names.last() == name {
            assert(names[names.len() - 1] == name);
        }
    }
}

/// A claim about the holder is told as it is written: a text as it stands, a number as its
/// digits, and a truth as a word. What is about the token itself is no such claim.
pub proof fn law_a_claim_is_told_as_it_is_written(
    all: Seq<(Seq<char>, Seq<char>)>,
    name: Seq<char>,
    i: int,
)
    requires
        0 <= i < all.len(),
        all[i].0 == name,
        forall|j: int| i < j < all.len() ==> (#[trigger] all[j]).0 != name,
        name != "iss"@ && name != "aud"@ && name != "exp"@ && name != "nbf"@ && name != "iat"@,
    ensures
        claim_of(all, name) == match json::json_of(all[i].1) {
            Ok(JsonView::Text(s)) => Some(s),
            Ok(JsonView::Number { written, .. }) => Some(written),
            Ok(JsonView::Bool(true)) => Some("true"@),
            Ok(JsonView::Bool(false)) => Some("false"@),
            _ => None,
        },
        claim_of(all, "iss"@) is None,
        claim_of(all, "aud"@) is None,
        claim_of(all, "exp"@) is None,
        claim_of(all, "nbf"@) is None,
        claim_of(all, "iat"@) is None,
    decreases all.len(),
{
    if i < all.len() - 1 {
        assert(all.last().0 != name);
        law_a_claim_is_told_as_it_is_written(all.drop_last(), name, i);
    }
}

/// Keys that were fetched are kept, and those of every other issuer stay as they are. Where they
/// could not be fetched, nothing changes, and the keys at hand go on deciding; without any, the
/// token is refused.
pub proof fn law_a_failed_refresh_keeps_the_keys_at_hand(
    before: IssuersView,
    after: IssuersView,
    p: PresentedView,
    fetched: Result<KeysView, Seq<char>>,
    result: Result<VouchedView, Seq<char>>,
    other: Seq<char>,
)
    requires
        resumed(before, after, p, fetched, result),
        other != p.issuer.name,
    ensures
        after.believed == before.believed,
        fetched matches Ok(keys) ==> {
            &&& after.cached.dom().contains(p.issuer.name)
            &&& after.cached[p.issuer.name] == keys
            &&& result == vouched(p, keys.by_kid)
        },
        fetched is Err ==> after.cached == before.cached,
        fetched is Err && before.cached.dom().contains(p.issuer.name) ==> result == vouched(
            p,
            before.cached[p.issuer.name].by_kid,
        ),
        fetched is Err && !before.cached.dom().contains(p.issuer.name) ==> result is Err,
        after.cached.dom().contains(other) <==> before.cached.dom().contains(other),
        before.cached.dom().contains(other) ==> after.cached[other] == before.cached[other],
{
}

/// A host's list of issuers is refused exactly where one of them allows nothing.
pub proof fn law_every_issuer_may_name_somebody(list: Seq<IssuerView>)
    ensures
        mute(list) < list.len() <==> exists|i: int|
            0 <= i < list.len() && (#[trigger] list[i]).allow.len() == 0,
        0 <= mute(list) < list.len() ==> list[mute(list)].allow.len() == 0,
        0 <= mute(list) <= list.len(),
    decreases list.len(),
{
    if list.len() > 0 && list[0].allow.len() != 0 {
        let rest = list.drop_first();
        law_every_issuer_may_name_somebody(rest);
        if mute(rest) < rest.len() {
            let i = choose|i: int| 0 <= i < rest.len() && (#[trigger] rest[i]).allow.len() == 0;
            assert(list[i + 1].allow.len() == 0);
        }
        if exists|i: int| 0 <= i < list.len() && (#[trigger] list[i]).allow.len() == 0 {
            let i = choose|i: int| 0 <= i < list.len() && (#[trigger] list[i]).allow.len() == 0;
            assert(rest[i - 1].allow.len() == 0);
        }
    }
}

/// A published key is usable where it is an RSA key and both its numbers can be read, and then
/// it is known by its name; keys of another kind are passed over.
pub proof fn law_an_rsa_key_is_kept_by_its_name(
    kty: Seq<char>,
    kid: Seq<char>,
    n: Seq<char>,
    e: Seq<char>,
    modulus: Seq<u8>,
    exponent: Seq<u8>,
)
    requires
        bytes_of(n) == Ok::<Seq<u8>, Seq<char>>(modulus),
        bytes_of(e) == Ok::<Seq<u8>, Seq<char>>(exponent),
    ensures
        usable(Some("RSA"@), Some(kid), Some(n), Some(e)) == Some(
            (kid, RsaView { n: modulus, e: exponent }),
        ),
        kty != "RSA"@ ==> usable(Some(kty), Some(kid), Some(n), Some(e)) is None,
{
}

/// Every usable key of a published set can be found by its name, the last of those that share
/// one.
pub proof fn law_every_published_key_can_be_found(
    items: Seq<Seq<char>>,
    item: Seq<char>,
    kid: Seq<char>,
    key: RsaView,
    other: Seq<char>,
)
    requires
        keys_in(items) is Ok,
        entry_of(item) == Ok::<Option<(Seq<char>, RsaView)>, ()>(Some((kid, key))),
        other != kid,
    ensures
        ({
            let known = keys_in(items.push(item));
            &&& known is Ok
            &&& known->Ok_0.dom().contains(kid)
            &&& known->Ok_0[kid] == key
            &&& known->Ok_0.dom().contains(other) <==> keys_in(items)->Ok_0.dom().contains(other)
            &&& keys_in(items)->Ok_0.dom().contains(other) ==> known->Ok_0[other] == keys_in(
                items,
            )->Ok_0[other]
        }),
{
    assert(items.push(item).drop_last() =~= items);
}

/// Padding says nothing: a text with it is the bytes that it is without.
pub proof fn law_padding_makes_no_difference(s: Seq<char>)
    ensures
        bytes_of(s + "="@) == bytes_of(s),
{
    reveal_strlit("=");
    let padded = s + "="@;
    assert(padded.drop_last() =~= s);
}

/// A token's first part says under `alg` how it was signed, and under `kid` by which key, where
/// it says so.
pub proof fn law_a_header_says_how_and_by_which_key(
    part: Seq<char>,
    bytes: Seq<u8>,
    fields: Seq<(Seq<char>, Seq<char>)>,
    alg: Seq<char>,
    kid: Option<Seq<char>>,
)
    requires
        bytes_of(part) == Ok::<Seq<u8>, Seq<char>>(bytes),
        json::fields_in(bytes, seq!["alg"@, "kid"@]) == Some(fields),
        json::text_member(fields, "alg"@) == Ok::<Option<Seq<char>>, ()>(Some(alg)),
        json::optional_text(fields, "kid"@) == Ok::<Option<Seq<char>>, ()>(kid),
    ensures
        header_of(part) == Some(HeaderView { alg, kid }),
{
}

/// A token's second part says under `iss` who made it, and under `exp`, `nbf` and `iat` when it
/// is good, where it says so; one that says any of these, or its audience, twice is refused.
pub proof fn law_claims_say_who_and_when(
    part: Seq<char>,
    s: Seq<char>,
    all: Seq<(Seq<char>, Seq<char>)>,
    iss: Seq<char>,
    exp: Option<u64>,
    nbf: Option<u64>,
    iat: Option<u64>,
    i: int,
    j: int,
)
    requires
        opened(part) == Some(s),
        json::json_of(s) == Ok::<JsonView, Seq<char>>(JsonView::Object(all)),
    ensures
        (forall|a: int, b: int|
            0 <= a < b < all.len() ==> (#[trigger] all[a]).0 != (#[trigger] all[b]).0)
            && json::text_member(all, "iss"@) == Ok::<Option<Seq<char>>, ()>(Some(iss))
            && json::optional_number(all, "exp"@) == Ok::<Option<u64>, ()>(exp)
            && json::optional_number(all, "nbf"@) == Ok::<Option<u64>, ()>(nbf)
            && json::optional_number(all, "iat"@) == Ok::<Option<u64>, ()>(iat) ==> claims_of(part)
            == Some(ClaimsView { iss, exp, nbf, iat, all }),
        0 <= i < j < all.len() && all[i].0 == all[j].0 && (all[i].0 == "iss"@ || all[i].0 == "aud"@
            || all[i].0 == "exp"@ || all[i].0 == "nbf"@ || all[i].0 == "iat"@) ==> claims_of(part)
            is None,
{
    let names = claim_names();
    assert(names[0] == "iss"@ && names[1] == "aud"@ && names[2] == "exp"@ && names[3] == "nbf"@
        && names[4] == "iat"@);
    if 0 <= i < j < all.len() && all[i].0 == all[j].0 && names.contains(all[i].0) {
        assert(json::repeats(all, names));
    }
}

/// A published key says under `kty`, `kid`, `n` and `e` what it is, and a key set lists its keys
/// under `keys`.
pub proof fn law_a_published_key_says_what_it_is(
    item: Seq<char>,
    fields: Seq<(Seq<char>, Seq<char>)>,
    kty: Option<Seq<char>>,
    kid: Option<Seq<char>>,
    n: Option<Seq<char>>,
    e: Option<Seq<char>>,
    body: Seq<char>,
    set: Seq<(Seq<char>, Seq<char>)>,
    list: Seq<char>,
)
    ensures
        json::fields_of(item, seq!["kty"@, "kid"@, "n"@, "e"@]) == Some(fields)
            && json::text_member(fields, "kty"@) == Ok::<Option<Seq<char>>, ()>(kty)
            && json::optional_text(fields, "kid"@) == Ok::<Option<Seq<char>>, ()>(kid)
            && json::optional_text(fields, "n"@) == Ok::<Option<Seq<char>>, ()>(n)
            && json::optional_text(fields, "e"@) == Ok::<Option<Seq<char>>, ()>(e) ==> entry_of(
            item,
        ) == Ok::<Option<(Seq<char>, RsaView)>, ()>(usable(kty, kid, n, e)),
        json::fields_of(body, seq!["keys"@]) == Some(set) && json::member(set, "keys"@) == Some(
            list,
        ) ==> entries_of(body) == json::list_of(list),
{
}

/// A key set without a usable key is refused, and otherwise gives every key it has.
pub proof fn law_a_key_set_without_keys_is_refused(
    body: Seq<char>,
    jwks: Seq<char>,
    items: Seq<Seq<char>>,
    known: Map<Seq<char>, RsaView>,
    kid: Seq<char>,
)
    requires
        entries_of(body) == Some(items),
    ensures
        keys_in(items) == Ok::<Map<Seq<char>, RsaView>, ()>(known) && known.dom().contains(kid)
            ==> key_set(body, jwks) == Ok::<Map<Seq<char>, RsaView>, Seq<char>>(known),
        keys_in(items) == Ok::<Map<Seq<char>, RsaView>, ()>(Map::empty()) ==> key_set(body, jwks)
            == Err::<Map<Seq<char>, RsaView>, Seq<char>>(
            jwks + " published no usable RSA keys"@,
        ),
        keys_in(items) is Err ==> key_set(body, jwks) is Err,
{
    if keys_in(items) == Ok::<Map<Seq<char>, RsaView>, ()>(Map::empty()) {
        assert(Map::<Seq<char>, RsaView>::empty().dom() =~= Set::empty());
    }
}

/// A host's issuers are listed by name with whom they may name, and that there are none is said.
pub proof fn law_issuers_are_listed_with_whom_they_may_name(i: IssuerView)
    ensures
        shown(i) == i.name + " ("@ + text::joined(i.allow, ", "@) + ")"@,
{
}

} // verus!
