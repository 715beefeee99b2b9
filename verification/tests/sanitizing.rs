//! Tests for excerpt sanitization: stripping, mention escaping, and
//! idempotence.
use minutes_to_gh::sanitize::sanitize;

fn b(s: &str) -> Vec<u8> {
    s.as_bytes().to_vec()
}

#[test]
fn strips_script_content() {
    // Would fail if the cleaning pass handed its input back unchanged.
    let r = sanitize(&b("XSS<script>attack</script>"));
    assert_eq!(r, b("XSS"));
}

#[test]
fn keeps_plain_markup() {
    let r = sanitize(&b("<p>agenda item <em>one</em></p>"));
    assert_eq!(r, b("<p>agenda item <em>one</em></p>"));
}

#[test]
fn wraps_mentions_in_code_once() {
    let r = sanitize(&b("thanks @alice for the review"));
    assert_eq!(r, b("thanks <code>@alice</code> for the review"));
    // Sanitizing the sanitized text changes nothing.
    let again = sanitize(&r);
    assert_eq!(again, r);
}

#[test]
fn wraps_every_mention() {
    let r = sanitize(&b("@alice and @bob_2"));
    assert_eq!(r, b("<code>@alice</code> and <code>@bob_2</code>"));
}

#[test]
fn sanitize_is_idempotent_on_markup() {
    let once = sanitize(&b("<p>ping @carol</p><script>x()</script>"));
    let twice = sanitize(&once);
    assert_eq!(twice, once);
    assert_eq!(once, b("<p>ping <code>@carol</code></p>"));
}

#[test]
fn bare_at_sign_untouched() {
    let r = sanitize(&b("mail me @ home"));
    assert_eq!(r, b("mail me @ home"));
}
