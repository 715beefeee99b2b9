//! Tests for the chat command grammar and the addressing test.
use minutes_to_gh::chat::{for_me, parse_command, BotCommand};

fn b(s: &str) -> Vec<u8> {
    s.as_bytes().to_vec()
}

fn parse(s: &str) -> BotCommand {
    parse_command(&b(s))
}

fn link(transcript: bool, groups: Option<&str>) -> BotCommand {
    BotCommand::LinkIssues { transcript, groups: groups.map(b) }
}

fn debug(date: Option<&str>, groups: Option<&str>) -> BotCommand {
    BotCommand::Debug { date: date.map(b), groups: groups.map(b) }
}

#[test]
fn farewell_forms() {
    for txt in [
        "bye",
        "excuse us",
        "leave",
        "out",
        "part",
        "please excuse us",
        "please leave",
        "please part",
    ] {
        assert_eq!(parse(txt), BotCommand::Bye, "{txt}");
    }
}

#[test]
fn help_forms() {
    assert_eq!(parse("help"), BotCommand::Help);
    assert_eq!(parse("please help"), BotCommand::Help);
}

#[test]
fn debug_forms() {
    assert_eq!(parse("debug"), debug(None, None));
    assert_eq!(parse("debug date 2024-11-14"), debug(Some("2024-11-14"), None));
    assert_eq!(
        parse("debug date 2024-11-14 groups wg/did,cg/credentials"),
        debug(Some("2024-11-14"), Some("wg/did,cg/credentials"))
    );
    assert_eq!(
        parse("debug groups wg/did,cg/credentials"),
        debug(None, Some("wg/did,cg/credentials"))
    );
}

#[test]
fn link_issues_forms() {
    for please in ["", "please "] {
        for back in ["", "back"] {
            for github in ["", "github "] {
                for to_minutes in ["", " to minutes"] {
                    for (with_transcript, flag) in [("", false), (" with transcript", true)] {
                        for (for_groups, groups) in
                            [("", None), (" for wg/foo,cg/bar", Some("wg/foo,cg/bar"))]
                        {
                            let txt = format!(
                                "{please}{back}link {github}issues{to_minutes}{with_transcript}{for_groups}"
                            );
                            assert_eq!(parse(&txt), link(flag, groups), "{txt}");
                        }
                    }
                }
            }
        }
    }
}

#[test]
fn unrecognized_forms() {
    assert_eq!(parse("anything else"), BotCommand::Unrecognized);
    assert_eq!(parse("link issues for a b"), BotCommand::Unrecognized);
    assert_eq!(parse("debug date"), BotCommand::Unrecognized);
}

#[test]
fn case_insensitive_matching() {
    assert_eq!(parse("Link Issues"), link(false, None));
    assert_eq!(parse("PLEASE HELP"), BotCommand::Help);
}

#[test]
fn addressing_requires_nick_and_comma() {
    assert_eq!(for_me(&b("m2gbot, link issues"), &b("m2gbot")), Some(b("link issues")));
    assert_eq!(for_me(&b("  m2gbot, help "), &b("m2gbot")), Some(b("help")));
    assert_eq!(for_me(&b("m2gbot link issues"), &b("m2gbot")), None);
    assert_eq!(for_me(&b("other, link issues"), &b("m2gbot")), None);
    assert_eq!(
        for_me(&b("\u{1}ACTION m2gbot, help\u{1}"), &b("m2gbot")),
        Some(b("help"))
    );
}
