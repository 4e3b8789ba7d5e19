use cyberium::attest::{
    matching, present, Claims, Config, Issuer, Issuers, Keys, Presented, Step, Vouched,
};
use cyberium::fleet::now;
use data_encoding::{BASE64URL_NOPAD, HEXLOWER};

/// The modulus of a 2048-bit key whose private half nobody kept.
const MODULUS: &str = "\
    ab5dbc1bff3f1b435fc37ebee7acde3f3330f9c0759bff0c292614c6119b693a8bc80001c73643dcc3f79169\
    80b5245b0065c390008ab142eaa0de9e2be54358492233842e981bfee92055378a9fdd5b2080bbdd668d039b\
    0a986ed4e1bc77f1a9dbfc42ec7c749882c7216c4c71e2579370c44e22034af6b30accb856ee07712dd2d3b8\
    1c9696a53e530b0de8bb24eab28e8011a5a811b23b6d81a111aa2781ba48cfe20fa5492c99ae421cc57b52b7\
    882715e711b213e4466f97401209a64af4644f2bf28b4c7468e87875648a8a49abba091357385a100bb99021\
    89b5f9a56857768ac795d3081edf69e465bd251a96d85a4a5d5c64678362b72e17448f09";

/// What that key signed of `HEADER` and `CLAIMS`.
const SIGNATURE: &str = "\
    5a2311e0e477086245e9b0dad5671134525d96ee592f0c884dafe83f1fa6ce9df105aaa81a44ea3ef3d5d948\
    9c8a3ef4d61263420a37250d4b7cc7fa6411144903500711e6f7ae15e54435a6825d43f3d1a26d16a18c78f0\
    9caaa2307e36b7933fc6fdc0b868672c431ce00664ec08d5e08bafeab0eb3e015f6f9f566a68701dee163d76\
    ec7297ea467837e932103e99b8629d234b0dc140523b8d6d782f9bf7bc6b3ef4d9e4556cc6b59d75879ad351\
    211bc22d373a0b9fa2e9a67a1887648e85b101a84f6bea15781a276baf9306218e625f903d75620246c3faeb\
    d41ad807f5f496899162558ab4c38e4bb4c06879b99a406c9c6c91a99488e06048336d8e";

const HEADER: &str = r#"{"alg":"RS256","kid":"k1"}"#;

const CLAIMS: &str = r#"{"iss":"https://iss.test","aud":"the-key-it-arrived-on","exp":4102444800,"iat":1700000000,"repository":"acme/payments","ref":"refs/heads/main"}"#;

const KEY: &str = "the-key-it-arrived-on";

/// A moment at which those claims stand.
const AT: u64 = 1_800_000_000;

fn url(bytes: &[u8]) -> String {
    BASE64URL_NOPAD.encode(bytes)
}

fn token(header: &str, claims: &str, signature: &[u8]) -> String {
    format!("{}.{}.{}", url(header.as_bytes()), url(claims.as_bytes()), url(signature))
}

/// A token whose claims are readable and whose signature is not valid.
fn unsigned(claims: &str) -> String {
    token(HEADER, claims, b"not a signature")
}

fn signed() -> String {
    token(HEADER, CLAIMS, &HEXLOWER.decode(SIGNATURE.as_bytes()).unwrap())
}

/// The key set that the issuer publishes.
fn published() -> String {
    let n = url(&HEXLOWER.decode(MODULUS.as_bytes()).unwrap());
    format!(r#"{{"keys":[{{"kid":"k1","kty":"RSA","n":"{n}","e":"AQAB"}}]}}"#)
}

fn issuer() -> Issuer {
    Issuer {
        name: "github".into(),
        url: "https://iss.test".into(),
        jwks: "https://iss.test/keys".into(),
        subject: "repository".into(),
        allow: vec!["acme/*".into()],
        facts: vec![],
        enrol: false,
    }
}

fn issuers() -> Issuers {
    Issuers::load("/srv/cm/issuers.toml", Config { issuers: vec![issuer()] }).ok().unwrap()
}

fn refused(step: Step) -> String {
    match step {
        Step::Refused(why) => why,
        Step::Fetch(_) => panic!("it asked for keys"),
        Step::Settled(_) => panic!("it was believed"),
    }
}

fn fetch(step: Step) -> Presented {
    match step {
        Step::Fetch(p) => p,
        Step::Refused(why) => panic!("{why}"),
        Step::Settled(_) => panic!("it was believed without keys"),
    }
}

fn vouched(with: &mut Issuers, token: &str) -> Result<Vouched, String> {
    let p = fetch(with.verify_at(token, KEY, AT));
    let keys = Keys::read(&published(), "https://iss.test/keys", AT);
    with.resume(&p, keys)
}

#[test]
fn a_pattern_matches_only_what_it_says() {
    assert!(matching("acme/payments", "acme/payments"));
    assert!(!matching("acme/payments", "acme/payments-api"));
    assert!(matching("acme/*", "acme/payments"));
    assert!(!matching("acme/*", "evil/payments"));
    assert!(matching("*/deploy", "acme/deploy"));
    assert!(!matching("*/deploy", "acme/deploy-staging"));
    assert!(matching("*payments*", "acme/payments-api"));
    assert!(matching("*", "anything at all"));
}

#[test]
fn a_prefix_of_an_issuer_url_is_not_that_issuer() {
    let a = "https://token.actions.githubusercontent.com";
    let b = "https://token.actions.githubusercontent.com.evil.test";
    assert_ne!(a, b);
    assert!(b.starts_with(a), "which is exactly why matching is by equality");

    // And so it is here.
    let real = Issuer { url: a.into(), ..issuer() };
    let claims = format!(r#"{{"iss":"{b}","aud":"k","exp":4102444800}}"#);
    let e = present(&[real], &unsigned(&claims), "k", AT).err().unwrap();
    assert!(e.contains("no issuer configured"), "{e}");
}

#[test]
fn an_issuer_that_allows_nothing_is_refused_at_load() {
    let nothing = Issuer { allow: vec![], ..issuer() };
    let e = Issuers::load("/srv/cm/issuers.toml", Config { issuers: vec![nothing] }).err().unwrap();
    assert!(e.contains("allows nothing"), "{e}");
}

#[test]
fn no_file_means_nobody_rather_than_everybody() {
    let issuers = Issuers::load("/srv/cm/issuers.toml", Config::default()).ok().unwrap();
    assert!(issuers.is_empty());
    assert!(issuers.describe().contains("only this organisation's own devices"));
}

#[test]
fn a_token_for_somebody_else_s_key_is_refused() {
    let exp = now() + 300;
    let claims = format!(
        r#"{{"iss":"https://iss.test","aud":"somebody-elses-key","exp":{exp},"repository":"acme/payments"}}"#
    );
    let e = refused(issuers().verify(&unsigned(&claims), "the-key-it-arrived-on"));
    assert!(e.contains("audience is not the key it arrived on"), "{e}");
}

#[test]
fn an_unknown_issuer_an_expired_token_and_a_bad_algorithm_are_all_refused() {
    let issuers = issuers();
    let now = now();
    let later = now + 300;
    let gone = now - 1;
    for (claims, expected) in [
        (
            format!(r#"{{"iss":"https://elsewhere.test","aud":"k","exp":{later}}}"#),
            "no issuer configured",
        ),
        (format!(r#"{{"iss":"https://iss.test","aud":"k","exp":{gone}}}"#), "expired"),
        (r#"{"iss":"https://iss.test","aud":"k"}"#.to_string(), "no expiry"),
    ] {
        let e = refused(issuers.verify(&unsigned(&claims), "k"));
        assert!(e.contains(expected), "expected {expected:?}, got {e:?}");
    }

    // `alg: none` is the classic way to accept anything at all.
    let none =
        format!("{}.{}.", url(br#"{"alg":"none"}"#), url(br#"{"iss":"https://iss.test"}"#));
    let e = refused(issuers.verify(&none, "k"));
    assert!(e.contains("only RS256"), "{e}");
}

#[test]
fn what_an_issuer_signed_is_believed() {
    let mut issuers = issuers();
    let v = vouched(&mut issuers, &signed()).ok().unwrap();
    assert_eq!(v.alias, "github:acme/payments");
    assert!(!v.may_enrol);
    assert_eq!(v.facts.get("repository").map(String::as_str), Some("acme/payments"));

    // The keys are kept for an hour, so the next token settles at once.
    match issuers.verify_at(&signed(), KEY, AT + 10) {
        Step::Settled(v) => assert_eq!(v.alias, "github:acme/payments"),
        _ => panic!("the keys were not kept"),
    }
    assert!(matches!(issuers.verify_at(&signed(), KEY, AT + 3601), Step::Fetch(_)));
}

#[test]
fn what_an_issuer_did_not_sign_is_not() {
    let e = vouched(&mut issuers(), &unsigned(CLAIMS)).err().unwrap();
    assert_eq!(e, "this token's signature does not verify");

    // Nor is one whose claims were changed under a real signature.
    let changed = CLAIMS.replace("acme/payments", "acme/platform");
    let forged = token(HEADER, &changed, &HEXLOWER.decode(SIGNATURE.as_bytes()).unwrap());
    let e = vouched(&mut issuers(), &forged).err().unwrap();
    assert_eq!(e, "this token's signature does not verify");
}

#[test]
fn an_issuer_vouches_only_for_whom_it_may() {
    let other = Issuer { allow: vec!["evil/*".into()], ..issuer() };
    let mut issuers =
        Issuers::load("/srv/cm/issuers.toml", Config { issuers: vec![other] }).ok().unwrap();
    let e = vouched(&mut issuers, &signed()).err().unwrap();
    assert_eq!(e, "\"acme/payments\" is not one of the subjects `github` may vouch for");
}

#[test]
fn every_fact_is_a_claim_that_was_asked_for() {
    let more = Issuer { facts: vec!["ref".into(), "absent".into()], enrol: true, ..issuer() };
    let mut issuers =
        Issuers::load("/srv/cm/issuers.toml", Config { issuers: vec![more] }).ok().unwrap();
    let v = vouched(&mut issuers, &signed()).ok().unwrap();
    assert_eq!(v.facts.get("ref").map(String::as_str), Some("refs/heads/main"));
    assert!(v.facts.get("absent").is_none());
    assert!(v.facts.get("aud").is_none());
    assert!(v.may_enrol);
}

#[test]
fn a_key_that_was_not_published_is_named() {
    let mut issuers = issuers();
    let p = fetch(issuers.verify_at(&signed(), KEY, AT));
    let body = published().replace("\"k1\"", "\"k2\"").replace(
        "\"keys\":[",
        "\"keys\":[{\"kid\":\"k3\",\"kty\":\"RSA\",\"n\":\"AQAB\",\"e\":\"AQAB\"},",
    );
    let keys = Keys::read(&body, "https://iss.test/keys", AT);
    let e = issuers.resume(&p, keys).err().unwrap();
    assert_eq!(e, "github published no key with kid \"k1\"");
}

#[test]
fn keys_that_could_not_be_fetched_settle_nothing() {
    let mut issuers = issuers();
    let p = fetch(issuers.verify_at(&signed(), KEY, AT));
    let e = issuers.resume(&p, Err("unreachable".into())).err().unwrap();
    assert_eq!(e, "fetching github's signing keys: unreachable");
    assert!(matches!(issuers.verify_at(&signed(), KEY, AT), Step::Fetch(_)));
}

#[test]
fn a_key_set_is_what_it_publishes_that_can_be_used() {
    let at = "https://iss.test/keys";
    assert_eq!(Keys::read("not json", at, 1).err().unwrap(), "the key set was not JSON: expected ident at line 1 column 2");
    assert_eq!(Keys::read("{\"keys\":7}", at, 1).err().unwrap(), "the key set was not JSON");
    assert_eq!(
        Keys::read(r#"{"keys":[{"kid":"a","kty":"EC"}]}"#, at, 1).err().unwrap(),
        "https://iss.test/keys published no usable RSA keys"
    );
    let k = Keys::read(r#"{"keys":[{"kid":"a","kty":"RSA","n":"AQAB","e":"AQAB"}]}"#, at, 7)
        .ok()
        .unwrap();
    assert_eq!(k.fetched_at, 7);
    assert_eq!(k.by_kid.get("a").unwrap().n, vec![1, 0, 1]);
}

#[test]
fn what_is_no_token_is_refused() {
    for (bad, expected) in [
        ("nothing", "not a JWT: no signature"),
        ("a.b", "not a JWT: no payload"),
        ("!.e30.AA", "the token's header: not base64url: invalid length at 0"),
        ("e30.e30.AA", "the token's header"),
        ("e2E.e30.AA", "the token's header: key must be a string at line 1 column 2"),
    ] {
        let e = present(&[issuer()], bad, "k", AT).err().unwrap();
        assert_eq!(e, expected, "{bad}");
    }
    let claims = format!("{}.!.AA", url(HEADER.as_bytes()));
    assert_eq!(present(&[issuer()], &claims, "k", AT).err().unwrap(), "the token's claims: not base64url: invalid length at 0");
    let twice = r#"{"iss":"https://iss.test","iss":"https://iss.test","aud":"k","exp":4102444800}"#;
    assert_eq!(present(&[issuer()], &unsigned(twice), "k", AT).err().unwrap(), "the token's claims");
    let listed = r#"["https://iss.test","k",4102444800]"#;
    assert_eq!(present(&[issuer()], &unsigned(listed), "k", AT).err().unwrap(), "the token's claims");
}

#[test]
fn a_header_may_be_a_list_and_names_nothing_twice() {
    let claims = r#"{"iss":"https://iss.test","aud":"k","exp":4102444800}"#;
    let p = present(&[issuer()], &token(r#"["RS256", "k1"]"#, claims, b"s"), "k", AT).ok().unwrap();
    assert_eq!(p.kid.as_deref(), Some("k1"));
    let p = present(&[issuer()], &token(r#"["RS256"]"#, claims, b"s"), "k", AT).ok().unwrap();
    assert_eq!(p.kid, None);
    for bad in [r#"[]"#, r#"["RS256","k1",1]"#, r#"{"alg":"RS256","alg":"RS256"}"#] {
        let e = present(&[issuer()], &token(bad, claims, b"s"), "k", AT).err().unwrap();
        assert_eq!(e, "the token's header", "{bad}");
    }
    let twice = r#"{"x":1,"alg":"RS256","x":2}"#;
    assert!(present(&[issuer()], &token(twice, claims, b"s"), "k", AT).is_ok());
}

#[test]
fn a_key_set_may_be_a_list() {
    let k = Keys::read(r#"[[["RSA","a","AQAB","AQAB"], {"kty":"EC"}]]"#, "u", 7).ok().unwrap();
    assert_eq!(k.by_kid.get("a").unwrap().e, vec![1, 0, 1]);
    assert_eq!(
        Keys::read(r#"{"keys":[],"keys":[]}"#, "u", 7).err().unwrap(),
        "the key set was not JSON"
    );
}

#[test]
fn a_token_from_the_future_is_refused() {
    let claims = r#"{"iss":"https://iss.test","aud":"k","exp":4102444800,"nbf":4000000000}"#;
    assert!(present(&[issuer()], &unsigned(claims), "k", AT).is_err());
}

#[test]
fn an_audience_may_be_one_of_several() {
    let claims = r#"{"iss":"https://iss.test","aud":["a","k"],"exp":4102444800}"#;
    let p = present(&[issuer()], &unsigned(claims), "k", AT).ok().unwrap();
    let c: &Claims = &p.claims;
    assert!(c.audience("k") && c.audience("a") && !c.audience("b"));
}

#[test]
fn issuers_are_listed_with_what_they_may_name() {
    assert_eq!(issuers().describe(), "github (acme/*)");
    assert_eq!(Issuers::path_in("/srv/cm"), "/srv/cm/issuers.toml");
    assert!(!issuer().may_enrol());
}

#[test]
fn what_is_not_looked_for_is_passed_over_unread() {
    let claims = r#"{"iss":"https://iss.test","aud":"k","exp":4102444800}"#;
    let deep = format!("{}{}", "[".repeat(300), "]".repeat(300));
    for odd in ["1e999", r#""\ud800""#, deep.as_str()] {
        let header = format!(r#"{{"x":{odd},"alg":"RS256"}}"#);
        assert!(present(&[issuer()], &token(&header, claims, b"s"), "k", AT).is_ok(), "{odd}");
        let header = format!(r#"{{"alg":{odd}}}"#);
        assert!(present(&[issuer()], &token(&header, claims, b"s"), "k", AT).is_err(), "{odd}");
        let set = format!(r#"{{"x":{odd},"keys":[{{"x":{odd},"kid":"a","kty":"RSA","n":"AQAB","e":"AQAB"}}]}}"#);
        assert!(Keys::read(&set, "u", 1).is_ok(), "{odd}");
        // A claim may be looked at by whoever is asked to carry it, so all of them are read.
        let all = format!(r#"{{"x":{odd},"iss":"https://iss.test","aud":"k","exp":4102444800}}"#);
        assert!(present(&[issuer()], &unsigned(&all), "k", AT).is_err(), "{odd}");
    }
    let bytes = |header: &[u8]| format!("{}.{}.{}", url(header), url(claims.as_bytes()), url(b"s"));
    assert!(present(&[issuer()], &bytes(b"{\"x\":\"\xff\",\"alg\":\"RS256\"}"), "k", AT).is_ok());
    assert!(present(&[issuer()], &bytes(b"{\"\xff\":1,\"alg\":\"RS256\"}"), "k", AT).is_err());
    assert!(present(&[issuer()], &bytes(b"{\"alg\":\"RS256\xff\"}"), "k", AT).is_err());
    let key = r#"{"\ud800":1,"alg":"RS256"}"#;
    assert!(present(&[issuer()], &token(key, claims, b"s"), "k", AT).is_err());
}
