//! Tests for the issue-reference parser.
use minutes_to_gh::issue::Issue;

fn b(s: &str) -> Vec<u8> {
    s.as_bytes().to_vec()
}

#[test]
fn parses_issues_spelling() {
    let url = b("https://github.com/acme/widgets/issues/42");
    let iss = Issue::try_from_url(&url).expect("should parse");
    assert_eq!(iss.owner, b("acme"));
    assert_eq!(iss.repo, b("widgets"));
    assert_eq!(iss.id, 42);
    assert_eq!(iss.url, url);
}

#[test]
fn parses_pull_spelling() {
    let url = b("https://github.com/acme/widgets/pull/7");
    let iss = Issue::try_from_url(&url).expect("should parse");
    assert_eq!(iss.owner, b("acme"));
    assert_eq!(iss.repo, b("widgets"));
    assert_eq!(iss.id, 7);
}

#[test]
fn parses_hash_spelling() {
    let url = b("http://github.com/w3c/rdf-star/#/105");
    let iss = Issue::try_from_url(&url).expect("should parse");
    assert_eq!(iss.owner, b("w3c"));
    assert_eq!(iss.repo, b("rdf-star"));
    assert_eq!(iss.id, 105);
}

#[test]
fn rejects_unrelated_urls() {
    assert!(Issue::try_from_url(&b("https://example.com/")).is_none());
    assert!(Issue::try_from_url(&b("/relative/path")).is_none());
    assert!(Issue::try_from_url(&b("https://github.com/acme/widgets")).is_none());
    assert!(Issue::try_from_url(&b("https://github.com/acme/widgets/issues/")).is_none());
    assert!(Issue::try_from_url(&b("https://github.com/acme/widgets/issues/12x")).is_none());
    assert!(Issue::try_from_url(&b("https://github.com/acme/issues/12")).is_none());
    assert!(Issue::try_from_url(&b("https://gitlab.com/acme/widgets/issues/12")).is_none());
    assert!(Issue::try_from_url(&b("https://github.com/acme/widgets/pulls/12")).is_none());
}

#[test]
fn rejects_numbers_out_of_range() {
    // Zero is not a positive issue number.
    assert!(Issue::try_from_url(&b("https://github.com/a/b/issues/0")).is_none());
    // Too large for a 64-bit id.
    assert!(Issue::try_from_url(&b("https://github.com/a/b/issues/99999999999999999999")).is_none());
    // Leading zeros are fine.
    let iss = Issue::try_from_url(&b("https://github.com/a/b/issues/007")).unwrap();
    assert_eq!(iss.id, 7);
}

#[test]
fn anchored_at_the_end_only() {
    assert!(Issue::try_from_url(&b("https://github.com/acme/widgets/issues/42#comment")).is_none());
    // The pattern may be preceded by anything.
    let iss = Issue::try_from_url(&b("see also https://github.com/acme/widgets/issues/42")).unwrap();
    assert_eq!(iss.id, 42);
}
