//! The chat command grammar: the few verbs that invoke the engine, and the
//! addressing test that decides whether a chat line is directed at the bot.
//!
//! A command line is matched case-insensitively against four fixed phrase
//! families, in this order: the linking command (`link issues` with its
//! optional words), `help`, the farewell forms, and `debug` with optional
//! date and groups. Anything else is unrecognized.
use vstd::prelude::*;

use crate::text;

verus! {

use vstd::string::StringSliceAdditionalSpecFns;

/// A command addressed to the bot.
#[derive(Clone, Debug, PartialEq, Eq)]
pub enum BotCommand {
    /// Leave the channel.
    Bye,
    /// Describe the bot.
    Help,
    /// Run the engine on today's minutes: with or without transcript
    /// excerpts, optionally for explicit group identifiers.
    LinkIssues { transcript: bool, groups: Option<Vec<u8>> },
    /// Simulation run: optional date, optional group identifiers.
    Debug { date: Option<Vec<u8>>, groups: Option<Vec<u8>> },
    /// None of the above.
    Unrecognized,
}

/// ASCII lower-casing of one byte.
pub open spec fn lower(b: u8) -> u8 {
    if 65 <= b <= 90 {
        (b + 32) as u8
    } else {
        b
    }
}

/// The bytes of `lit` occur at position `i` of `s`, compared
/// case-insensitively (ASCII).
pub open spec fn ieq_at(s: Seq<u8>, i: int, lit: Seq<u8>) -> bool {
    0 <= i && i + lit.len() <= s.len() && forall|k: int|
        0 <= k < lit.len() ==> lower(s[i + k]) == lower(#[trigger] lit[k])
}

/// Position after an optional literal: advanced when the literal is
/// present, unchanged otherwise.
pub open spec fn after_opt(s: Seq<u8>, i: int, lit: Seq<u8>) -> int {
    if ieq_at(s, i, lit) {
        i + lit.len()
    } else {
        i
    }
}

/// Length of the run of non-space bytes starting at `j`.
pub open spec fn nonspace_run(s: Seq<u8>, j: int) -> int
    decreases s.len() - j when j >= 0
{
    if 0 <= j < s.len() && s[j] != 32 {
        1 + nonspace_run(s, j + 1)
    } else {
        0
    }
}

/// The linking command: `please`? `back`? `link` `github`? `issues`
/// `to minutes`? `with transcript`? (`for` <groups>)?, anchored at both
/// ends; yields the transcript flag and the optional group identifiers.
pub open spec fn link_cmd(s: Seq<u8>) -> Option<(bool, Option<Seq<u8>>)> {
    let i = after_opt(s, 0, "please ".spec_bytes());
    let i = after_opt(s, i, "back".spec_bytes());
    if !ieq_at(s, i, "link ".spec_bytes()) {
        None
    } else {
        let i = i + "link ".spec_bytes().len();
        let i = after_opt(s, i, "github ".spec_bytes());
        if !ieq_at(s, i, "issues".spec_bytes()) {
            None
        } else {
            let i = i + "issues".spec_bytes().len();
            let i = after_opt(s, i, " to minutes".spec_bytes());
            let transcript = ieq_at(s, i, " with transcript".spec_bytes());
            let i = after_opt(s, i, " with transcript".spec_bytes());
            if i == s.len() {
                Some((transcript, None))
            } else if ieq_at(s, i, " for ".spec_bytes()) {
                let g = i + " for ".spec_bytes().len();
                if g < s.len() && g + nonspace_run(s, g) == s.len() {
                    Some((transcript, Some(s.subrange(g, s.len() as int))))
                } else {
                    None
                }
            } else {
                None
            }
        }
    }
}

/// The help command: `please`? `help`, whole line.
pub open spec fn is_help(s: Seq<u8>) -> bool {
    after_opt(s, 0, "please ".spec_bytes()) + "help".spec_bytes().len() == s.len() && ieq_at(
        s,
        after_opt(s, 0, "please ".spec_bytes()),
        "help".spec_bytes(),
    )
}

/// The farewell forms: a line starting with `bye`, containing `out`, or
/// ending with `excuse us`, `leave` or `part`.
pub open spec fn is_bye(s: Seq<u8>) -> bool {
    ||| ieq_at(s, 0, "bye".spec_bytes())
    ||| exists|i: int| ieq_at(s, i, "out".spec_bytes())
    ||| ieq_at(s, s.len() - "excuse us".spec_bytes().len(), "excuse us".spec_bytes())
    ||| ieq_at(s, s.len() - "leave".spec_bytes().len(), "leave".spec_bytes())
    ||| ieq_at(s, s.len() - "part".spec_bytes().len(), "part".spec_bytes())
}

/// The debug command: `debug` (`date` <date>)? (`groups` <groups>)?,
/// anchored at both ends.
pub open spec fn debug_cmd(s: Seq<u8>) -> Option<(Option<Seq<u8>>, Option<Seq<u8>>)> {
    if !ieq_at(s, 0, "debug".spec_bytes()) {
        None
    } else {
        let i = "debug".spec_bytes().len() as int;
        let date_present = ieq_at(s, i, " date ".spec_bytes());
        let dstart = i + " date ".spec_bytes().len();
        let dlen = nonspace_run(s, dstart);
        let after_date = if date_present && dlen > 0 {
            dstart + dlen
        } else {
            i
        };
        let date = if date_present && dlen > 0 {
            Some(s.subrange(dstart, dstart + dlen))
        } else {
            None
        };
        let groups_present = ieq_at(s, after_date, " groups ".spec_bytes());
        let gstart = after_date + " groups ".spec_bytes().len();
        let glen = nonspace_run(s, gstart);
        let after_groups = if groups_present && glen > 0 {
            gstart + glen
        } else {
            after_date
        };
        let groups = if groups_present && glen > 0 {
            Some(s.subrange(gstart, gstart + glen))
        } else {
            None
        };
        if after_groups == s.len() {
            Some((date, groups))
        } else {
            None
        }
    }
}

/// The abstract content of an optional byte string.
pub open spec fn opt_bytes(o: Option<Vec<u8>>) -> Option<Seq<u8>> {
    match o {
        Option::Some(v) => Option::Some(v@),
        Option::None => Option::None,
    }
}

/// Case-insensitive comparison of `lit` against `s` at position `i`.
fn ieq_at_exec(s: &Vec<u8>, i: usize, lit: &Vec<u8>) -> (r: bool)
    ensures
        r == ieq_at(s@, i as int, lit@),
{
    let s_len = s.len();
    if i > s_len || lit.len() > s_len - i {
        return false;
    }
    let mut k: usize = 0;
    while k < lit.len()
        invariant
            0 <= k <= lit@.len(),
            i + lit@.len() <= s@.len() == s_len,
            forall|j: int| 0 <= j < k ==> lower(s@[i + j]) == lower(#[trigger] lit@[j]),
        decreases lit@.len() - k,
    {
        let a = s[i + k];
        let b = lit[k];
        let la = if 65 <= a && a <= 90 {
            a + 32
        } else {
            a
        };
        let lb = if 65 <= b && b <= 90 {
            b + 32
        } else {
            b
        };
        if la != lb {
            return false;
        }
        k += 1;
    }
    true
}

/// Length of the run of non-space bytes starting at `j`.
#[verifier::loop_isolation(false)]
fn nonspace_run_exec(s: &Vec<u8>, j: usize) -> (r: usize)
    requires
        j <= s@.len(),
    ensures
        r == nonspace_run(s@, j as int),
        j + r <= s@.len(),
{
    let mut e = j;
    while e < s.len() && s[e] != 32
        invariant
            j <= e <= s@.len(),
            forall|k: int| j <= k < e ==> s@[k] != 32,
        decreases s@.len() - e,
    {
        e += 1;
    }
    proof {
        lemma_nonspace_run_char(s@, j as int, e as int);
    }
    e - j
}

proof fn lemma_nonspace_run_char(s: Seq<u8>, j: int, stop: int)
    requires
        0 <= j <= stop <= s.len(),
        forall|k: int| j <= k < stop ==> #[trigger] s[k] != 32,
        stop == s.len() || s[stop] == 32,
    ensures
        nonspace_run(s, j) == stop - j,
    decreases stop - j,
{
    if j < stop {
        lemma_nonspace_run_char(s, j + 1, stop);
    }
}

/// Advance past an optional literal.
fn eat_opt(s: &Vec<u8>, i: usize, lit: &Vec<u8>) -> (r: usize)
    requires
        i <= s@.len(),
    ensures
        r == after_opt(s@, i as int, lit@),
        i <= r <= s@.len(),
{
    let n = s.len();
    if ieq_at_exec(s, i, lit) {
        i + lit.len()
    } else {
        i
    }
}

/// Attempt the linking-command family on `s`.
fn try_link(s: &Vec<u8>) -> (r: Option<(bool, Option<Vec<u8>>)>)
    ensures
        match r {
            Some(p) => link_cmd(s@) matches Some(q) && q.0 == p.0 && q.1 == opt_bytes(p.1),
            None => link_cmd(s@) is None,
        },
{
    let n = s.len();
    let i = eat_opt(s, 0, &text::lit("please "));
    let i = eat_opt(s, i, &text::lit("back"));
    let link = text::lit("link ");
    if !ieq_at_exec(s, i, &link) {
        return None;
    }
    let i = i + link.len();
    let i = eat_opt(s, i, &text::lit("github "));
    let issues = text::lit("issues");
    if !ieq_at_exec(s, i, &issues) {
        return None;
    }
    let i = i + issues.len();
    let i = eat_opt(s, i, &text::lit(" to minutes"));
    let with_transcript = text::lit(" with transcript");
    let transcript = ieq_at_exec(s, i, &with_transcript);
    let i = eat_opt(s, i, &with_transcript);
    if i == s.len() {
        return Some((transcript, None));
    }
    let for_lit = text::lit(" for ");
    if ieq_at_exec(s, i, &for_lit) {
        let g = i + for_lit.len();
        if g < s.len() && g + nonspace_run_exec(s, g) == s.len() {
            let groups = text::copy_range(s, g, s.len());
            return Some((transcript, Some(groups)));
        }
    }
    None
}

/// Parse one chat line, already stripped of the address prefix, into a
/// bot command; the four phrase families are tried in a fixed order.
#[verifier::loop_isolation(false)]
#[verifier::rlimit(60)]
pub fn parse_command(s: &Vec<u8>) -> (r: BotCommand)
    ensures
        match r {
            BotCommand::LinkIssues { transcript, groups } => link_cmd(s@) matches Some(p) && p.0
                == transcript && p.1 == opt_bytes(groups),
            BotCommand::Help => link_cmd(s@) is None && is_help(s@),
            BotCommand::Bye => link_cmd(s@) is None && !is_help(s@) && is_bye(s@),
            BotCommand::Debug { date, groups } => link_cmd(s@) is None && !is_help(s@) && !is_bye(
                s@,
            ) && (debug_cmd(s@) matches Some(p) && p.0 == opt_bytes(date) && p.1 == opt_bytes(
                groups,
            )),
            BotCommand::Unrecognized => link_cmd(s@) is None && !is_help(s@) && !is_bye(s@)
                && debug_cmd(s@) is None,
        },
{
    // The linking command.
    match try_link(s) {
        Some((transcript, groups)) => {
            return BotCommand::LinkIssues { transcript, groups };
        },
        None => {},
    }
    assert(link_cmd(s@) is None);
    let n = s.len();
    // The help command.
    let please = text::lit("please ");
    let help = text::lit("help");
    let h = eat_opt(s, 0, &please);
    if ieq_at_exec(s, h, &help) && h + help.len() == s.len() {
        return BotCommand::Help;
    }
    assert(!is_help(s@));
    // The farewell forms.
    let bye = text::lit("bye");
    let out = text::lit("out");
    proof {
        reveal_strlit("out");
        assert(vstd::string::is_ascii("out"));
        vstd::string::is_ascii_spec_bytes("out");
        assert("out".spec_bytes().len() == 3);
    }
    let excuse = text::lit("excuse us");
    let leave = text::lit("leave");
    let part = text::lit("part");
    let mut is_bye_line = ieq_at_exec(s, 0, &bye);
    if !is_bye_line && excuse.len() <= s.len() {
        is_bye_line = ieq_at_exec(s, s.len() - excuse.len(), &excuse);
    }
    if !is_bye_line && leave.len() <= s.len() {
        is_bye_line = ieq_at_exec(s, s.len() - leave.len(), &leave);
    }
    if !is_bye_line && part.len() <= s.len() {
        is_bye_line = ieq_at_exec(s, s.len() - part.len(), &part);
    }
    if !is_bye_line {
        let mut j: usize = 0;
        while j < s.len()
            invariant
                0 <= j <= s@.len(),
                forall|k: int| 0 <= k < j ==> !ieq_at(s@, k, "out".spec_bytes()),
                !is_bye_line,
            decreases s@.len() - j,
        {
            if ieq_at_exec(s, j, &out) {
                is_bye_line = true;
                break;
            }
            j += 1;
        }
        proof {
            if !is_bye_line {
                assert(forall|k: int| k >= s@.len() ==> !ieq_at(s@, k, "out".spec_bytes()));
                assert(forall|k: int| k < 0 ==> !ieq_at(s@, k, "out".spec_bytes()));
            }
        }
    }
    if is_bye_line {
        return BotCommand::Bye;
    }
    assert(!is_bye(s@));
    // The debug command.
    let debug = text::lit("debug");
    if !ieq_at_exec(s, 0, &debug) {
        return BotCommand::Unrecognized;
    }
    let i = debug.len();
    assert(i <= s@.len());
    let date_lit = text::lit(" date ");
    let date_present = ieq_at_exec(s, i, &date_lit);
    let mut date: Option<Vec<u8>> = None;
    let mut after_date = i;
    if date_present {
        let dstart = i + date_lit.len();
        let dlen = nonspace_run_exec(s, dstart);
        if dlen > 0 {
            date = Some(text::copy_range(s, dstart, dstart + dlen));
            after_date = dstart + dlen;
        }
    }
    let groups_lit = text::lit(" groups ");
    let groups_present = ieq_at_exec(s, after_date, &groups_lit);
    let mut groups: Option<Vec<u8>> = None;
    let mut after_groups = after_date;
    if groups_present {
        let gstart = after_date + groups_lit.len();
        let glen = nonspace_run_exec(s, gstart);
        if glen > 0 {
            groups = Some(text::copy_range(s, gstart, gstart + glen));
            after_groups = gstart + glen;
        }
    }
    if after_groups == s.len() {
        BotCommand::Debug { date, groups }
    } else {
        BotCommand::Unrecognized
    }
}

/// The bytes addressed to `nickname` in a chat line: the line (unwrapped
/// from an ACTION marker if present, then trimmed of ASCII whitespace)
/// must start with the nickname followed by a comma and a space; what
/// follows is the command text.
pub open spec fn addressed_to(message: Seq<u8>, nickname: Seq<u8>) -> Option<Seq<u8>> {
    let content = trimmed(unwrap_action(message));
    let sep = nickname + ", ".spec_bytes();
    if sep.len() <= content.len() && content.subrange(0, sep.len() as int) == sep {
        Some(content.subrange(sep.len() as int, content.len() as int))
    } else {
        None
    }
}

/// The payload of an ACTION-marked line, or the line itself.
pub open spec fn unwrap_action(message: Seq<u8>) -> Seq<u8> {
    let marker = action_marker();
    if marker.len() < message.len() && message.subrange(0, marker.len() as int) == marker {
        message.subrange(marker.len() as int, message.len() - 1)
    } else {
        message
    }
}

/// The control byte and the word that introduce a chat ACTION line.
pub open spec fn action_marker() -> Seq<u8> {
    seq![1u8] + "ACTION ".spec_bytes()
}

/// ASCII whitespace.
pub open spec fn is_space(b: u8) -> bool {
    b == 32 || b == 9 || b == 10 || b == 13
}

/// `s` without leading and trailing ASCII whitespace.
pub open spec fn trimmed(s: Seq<u8>) -> Seq<u8>
    decreases s.len(),
{
    if s.len() == 0 {
        s
    } else if is_space(s[0]) {
        trimmed(s.subrange(1, s.len() as int))
    } else if is_space(s.last()) {
        trimmed(s.subrange(0, s.len() - 1))
    } else {
        s
    }
}

/// Trim ASCII whitespace from both ends.
#[verifier::loop_isolation(false)]
fn trim_exec(s: &Vec<u8>) -> (r: Vec<u8>)
    ensures
        r@ == trimmed(s@),
{
    let mut lo: usize = 0;
    let mut hi: usize = s.len();
    proof {
        assert(s@.subrange(0, s@.len() as int) =~= s@);
    }
    while lo < hi && (s[lo] == 32 || s[lo] == 9 || s[lo] == 10 || s[lo] == 13)
        invariant
            0 <= lo <= hi <= s@.len(),
            forall|k: int| 0 <= k < lo ==> is_space(#[trigger] s@[k]),
            trimmed(s@) == trimmed(s@.subrange(lo as int, hi as int)),
            hi == s@.len(),
        decreases hi - lo,
    {
        proof {
            let cur = s@.subrange(lo as int, hi as int);
            assert(cur.subrange(1, cur.len() as int) =~= s@.subrange(lo + 1, hi as int));
        }
        lo += 1;
    }
    while lo < hi && (s[hi - 1] == 32 || s[hi - 1] == 9 || s[hi - 1] == 10 || s[hi - 1] == 13)
        invariant
            0 <= lo <= hi <= s@.len(),
            trimmed(s@) == trimmed(s@.subrange(lo as int, hi as int)),
            lo < hi ==> !is_space(s@[lo as int]),
        decreases hi - lo,
    {
        proof {
            let cur = s@.subrange(lo as int, hi as int);
            assert(cur.subrange(0, cur.len() - 1) =~= s@.subrange(lo as int, hi - 1));
        }
        hi -= 1;
    }
    proof {
        let cur = s@.subrange(lo as int, hi as int);
        assert(trimmed(cur) == cur);
    }
    text::copy_range(s, lo, hi)
}

/// Extract the command text addressed to `nickname`, if any.
#[verifier::loop_isolation(false)]
pub fn for_me(message: &Vec<u8>, nickname: &Vec<u8>) -> (r: Option<Vec<u8>>)
    ensures
        opt_bytes(r) == addressed_to(message@, nickname@),
{
    let mut marker: Vec<u8> = Vec::new();
    marker.push(1);
    let action_word = text::lit("ACTION ");
    text::push_all(&mut marker, &action_word);
    assert(marker@ =~= action_marker());
    let unwrapped: Vec<u8>;
    if marker.len() < message.len() && text::matches_at(message, &marker, 0) {
        proof {
            assert(message@.subrange(0, marker@.len() as int) =~= marker@);
        }
        unwrapped = text::copy_range(message, marker.len(), message.len() - 1);
    } else {
        proof {
            if marker@.len() < message@.len() {
                assert(message@.subrange(0, marker@.len() as int) =~= marker@ ==> text::sub_at(
                    message@,
                    marker@,
                    0,
                ));
            }
            assert(message@.subrange(0, message@.len() as int) =~= message@);
        }
        unwrapped = text::copy_range(message, 0, message.len());
    }
    let content = trim_exec(&unwrapped);
    let mut sep = text::copy_range(nickname, 0, nickname.len());
    let comma = text::lit(", ");
    text::push_all(&mut sep, &comma);
    proof {
        assert(nickname@.subrange(0, nickname@.len() as int) =~= nickname@);
        assert(sep@ =~= nickname@ + ", ".spec_bytes());
    }
    if sep.len() <= content.len() && text::matches_at(&content, &sep, 0) {
        proof {
            assert(content@.subrange(0, sep@.len() as int) =~= sep@);
        }
        Some(text::copy_range(&content, sep.len(), content.len()))
    } else {
        proof {
            if sep@.len() <= content@.len() {
                assert(content@.subrange(0, sep@.len() as int) =~= sep@ ==> text::sub_at(
                    content@,
                    sep@,
                    0,
                ));
            }
        }
        None
    }
}

} // verus!
