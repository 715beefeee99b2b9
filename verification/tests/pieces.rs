//! Tests for the smaller pieces: text utilities, dates, configuration
//! derivation, the duplicate detector, outcomes and the pacer.
use minutes_to_gh::config;
use minutes_to_gh::date::{pred_date, Date};
use minutes_to_gh::engine::{comment_to_link, compose_comment, transpose_2nd, Comment};
use minutes_to_gh::error::EngineCreationError;
use minutes_to_gh::issue::Issue;
use minutes_to_gh::limiter::RateLimiter;
use minutes_to_gh::outcome::{narrate, nothing_to_do, Outcome};
use minutes_to_gh::repositories::{owns, Owner, Repository};
use minutes_to_gh::text;

fn b(s: &str) -> Vec<u8> {
    s.as_bytes().to_vec()
}

#[test]
fn substitute_replaces_every_occurrence() {
    let r = text::substitute(&b("x %URL% y %URL%"), &b("%URL%"), &b("L"));
    assert_eq!(r, b("x L y L"));
    let r = text::substitute(&b("nothing here"), &b("%URL%"), &b("L"));
    assert_eq!(r, b("nothing here"));
}

#[test]
fn split_keeps_empty_pieces() {
    let r = text::split_bytes(&b("a,,b"), b',');
    assert_eq!(r, vec![b("a"), b(""), b("b")]);
    let r = text::split_bytes(&b("solo"), b',');
    assert_eq!(r, vec![b("solo")]);
    let r = text::split_bytes(&b(""), b',');
    assert_eq!(r, vec![b("")]);
}

#[test]
fn find_sub_finds_first() {
    assert_eq!(text::find_sub(&b("abcabc"), &b("bc")), Some(1));
    assert_eq!(text::find_sub(&b("abc"), &b("zz")), None);
    assert!(text::contains_sub(&b("abc"), &b("")));
}

#[test]
fn previous_day_handles_month_and_leap_boundaries() {
    let d = pred_date(&Date { year: 2024, month: 3, day: 1 });
    assert_eq!(d, Date { year: 2024, month: 2, day: 29 });
    let d = pred_date(&Date { year: 2023, month: 3, day: 1 });
    assert_eq!(d, Date { year: 2023, month: 2, day: 28 });
    let d = pred_date(&Date { year: 2025, month: 1, day: 1 });
    assert_eq!(d, Date { year: 2024, month: 12, day: 31 });
    let d = pred_date(&Date { year: 2025, month: 3, day: 5 });
    assert_eq!(d, Date { year: 2025, month: 3, day: 4 });
    let d = pred_date(&Date { year: 2100, month: 3, day: 1 });
    assert_eq!(d, Date { year: 2100, month: 2, day: 28 });
}

#[test]
fn minutes_url_is_zero_padded() {
    let d = Date { year: 2025, month: 3, day: 5 };
    let url = config::minutes_url(&d, &b("chan"));
    assert_eq!(url, b("https://www.w3.org/2025/03/05-chan-minutes.html"));
}

#[test]
fn channel_name_strips_leading_hash() {
    assert_eq!(config::channel_name(&b("#chan")), b("chan"));
    assert_eq!(config::channel_name(&b("chan")), b("chan"));
}

#[test]
fn template_carries_channel_and_long_date() {
    let d = Date { year: 2025, month: 3, day: 5 };
    let t = config::message_template(&b("#chan"), &d);
    assert_eq!(t, b("This was discussed during the [#chan meeting on 05 March 2025](%URL%)."));
}

#[test]
fn group_urls_cover_each_group() {
    let urls = config::group_urls(&b("wg/did,cg/credentials"));
    assert_eq!(
        urls,
        vec![
            b("https://raw.githubusercontent.com/w3c/groups/refs/heads/main/wg/did/repositories.json"),
            b("https://raw.githubusercontent.com/w3c/groups/refs/heads/main/cg/credentials/repositories.json"),
        ]
    );
    assert_eq!(config::default_groups(&b("chan")), b("wg/chan"));
}

#[test]
fn composed_comment_with_and_without_transcript() {
    let body = compose_comment(&b("see %URL% now"), &b("L#f"), false, &b("ignored"));
    assert_eq!(body, b("see L#f now"));
    let body = compose_comment(&b("see %URL%"), &b("L#f"), true, &b("<p>x</p>"));
    assert_eq!(
        body,
        b("see L#f\n\n<details><summary><i>View the transcript</i></summary>\n\n<p>x</p>\n<hr /></details>")
    );
}

#[test]
fn duplicate_detector_returns_first_match_only() {
    let link = b("https://w/m.html#f");
    let comments = vec![
        Comment { body: None, html_url: b("u0") },
        Comment { body: Some(b("mentions https://w/m.html#other")), html_url: b("u1") },
        Comment { body: Some(b("has https://w/m.html#f inside")), html_url: b("u2") },
        Comment { body: Some(b("also https://w/m.html#f")), html_url: b("u3") },
    ];
    assert_eq!(comment_to_link(&comments, &link), Some(2));
    // A different fragment of the same transcript does not count.
    let comments = vec![Comment {
        body: Some(b("mentions https://w/m.html#other")),
        html_url: b("u1"),
    }];
    assert_eq!(comment_to_link(&comments, &link), None);
}

#[test]
fn ownership_is_exact_and_case_sensitive() {
    let url = b("https://github.com/acme/widgets/issues/3");
    let iss = Issue::try_from_url(&url).unwrap();
    let rs = vec![Repository { name: b("widgets"), owner: Owner { login: b("acme") } }];
    assert!(owns(&Some(rs), &iss));
    let rs = vec![Repository { name: b("Widgets"), owner: Owner { login: b("acme") } }];
    assert!(!owns(&Some(rs), &iss));
    assert!(owns(&None, &iss));
}

#[test]
fn repository_slugs_default_to_w3c() {
    let r = Repository::from_slug(&b("vc-data-model"));
    assert_eq!(r.owner.login, b("w3c"));
    assert_eq!(r.name, b("vc-data-model"));
    let r = Repository::from_slug(&b("acme/widgets"));
    assert_eq!(r.owner.login, b("acme"));
    assert_eq!(r.name, b("widgets"));
}

#[test]
fn narrations_match_each_outcome() {
    let iss = Issue::try_from_url(&b("https://github.com/a/b/issues/9")).unwrap();
    let o = Outcome::created(&iss, b("https://c/9"));
    assert_eq!(narrate(&o), b("comment created: https://c/9"));
    let o = Outcome::faked(&iss);
    assert_eq!(narrate(&o), b("comment would have been created for: https://github.com/a/b/issues/9"));
    let o = Outcome::duplicate(&iss, b("https://c/8"));
    assert_eq!(narrate(&o), b("comment already there: https://c/8"));
    let o = Outcome::not_owned(&iss);
    assert_eq!(
        narrate(&o),
        b("issue https://github.com/a/b/issues/9 not owned by current group(s)")
    );
    let o = Outcome::error(&iss, b("cause"));
    assert_eq!(
        narrate(&o),
        b("a problem occurred when processing https://github.com/a/b/issues/9")
    );
    assert_eq!(nothing_to_do(), b("nothing to do (no issue in the (sub)topics)"));
}

#[test]
fn creation_errors_classify_and_describe() {
    let e = EngineCreationError::minutes(Some(404), b("https://w/m.html"));
    assert_eq!(e.message(), b("Minutes not found <https://w/m.html>"));
    let e = EngineCreationError::minutes(Some(500), b("https://w/m.html"));
    assert_eq!(e.message(), b("Error loading minutes"));
    let e = EngineCreationError::minutes(None, b("x"));
    assert_eq!(e.message(), b("Error loading minutes"));
    assert_eq!(EngineCreationError::w3c_api().message(), b("W3C API error"));
}

#[test]
fn pacer_spaces_grants_by_the_interval() {
    let mut l = RateLimiter::new(1000);
    let g1 = l.acquire(0);
    assert_eq!(g1, 0);
    // Requested too early: pushed to one interval after the first grant.
    let g2 = l.acquire(10);
    assert_eq!(g2, 1000);
    // Requested late: granted immediately.
    let g3 = l.acquire(2500);
    assert_eq!(g3, 2500);
    assert!(g2 - g1 >= 1000 && g3 - g2 >= 1000);
}

#[test]
fn transpose_keeps_the_pair_only_when_present() {
    assert_eq!(transpose_2nd((1, Some(2))), Some((1, 2)));
    assert_eq!(transpose_2nd::<i32, i32>((1, None)), None);
}
