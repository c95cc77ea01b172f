use replikv::coordinator::Event;
use replikv::links::ManCommand;
use replikv::parse::{parse_client_command, parse_management_command, parse_u64,
    split_whitespace_tokens};

#[test]
fn tokens_split_on_whitespace() {
    let ts = split_whitespace_tokens("  write  foo\tbar\n");
    assert_eq!(ts, vec!["write".to_string(), "foo".to_string(), "bar".to_string()]);
}

#[test]
fn tokens_of_blank_line_are_none() {
    let ts = split_whitespace_tokens("   \t\r\n");
    assert!(ts.is_empty());
}

#[test]
fn parse_read_command() {
    match parse_client_command("read foo") {
        Some(Event::ClientRead(k)) => assert_eq!(k, "foo"),
        other => panic!("unexpected parse: {:?}", other),
    }
}

#[test]
fn parse_read_without_key_is_noise() {
    assert!(parse_client_command("read").is_none());
}

#[test]
fn parse_write_command() {
    match parse_client_command("write foo bar") {
        Some(Event::ClientWrite(kv)) => {
            assert_eq!(kv.key, "foo");
            assert_eq!(kv.value, "bar");
        },
        other => panic!("unexpected parse: {:?}", other),
    }
}

#[test]
fn parse_write_missing_parts_default_to_empty() {
    match parse_client_command("write foo") {
        Some(Event::ClientWrite(kv)) => {
            assert_eq!(kv.key, "foo");
            assert_eq!(kv.value, "");
        },
        other => panic!("unexpected parse: {:?}", other),
    }
    match parse_client_command("write") {
        Some(Event::ClientWrite(kv)) => {
            assert_eq!(kv.key, "");
            assert_eq!(kv.value, "");
        },
        other => panic!("unexpected parse: {:?}", other),
    }
}

#[test]
fn parse_write_ignores_extra_tokens() {
    match parse_client_command("write foo bar baz") {
        Some(Event::ClientWrite(kv)) => {
            assert_eq!(kv.key, "foo");
            assert_eq!(kv.value, "bar");
        },
        other => panic!("unexpected parse: {:?}", other),
    }
}

#[test]
fn parse_delete_is_write_of_empty_value() {
    match parse_client_command("delete foo") {
        Some(Event::ClientWrite(kv)) => {
            assert_eq!(kv.key, "foo");
            assert_eq!(kv.value, "");
        },
        other => panic!("unexpected parse: {:?}", other),
    }
}

#[test]
fn parse_unknown_or_empty_is_noise() {
    assert!(parse_client_command("frobnicate foo").is_none());
    assert!(parse_client_command("").is_none());
}

#[test]
fn parse_break_link() {
    assert_eq!(parse_management_command("break_link 2"), Some(ManCommand::BreakLink(2)));
}

#[test]
fn parse_break_link_needs_a_number() {
    assert_eq!(parse_management_command("break_link"), None);
    assert_eq!(parse_management_command("break_link two"), None);
    assert_eq!(parse_management_command("break_link -1"), None);
    assert_eq!(parse_management_command("break_link 99999999999999999999999"), None);
}

#[test]
fn parse_restore_and_get_links() {
    assert_eq!(parse_management_command("restore_links"), Some(ManCommand::RestoreLinks));
    assert_eq!(parse_management_command("get_links"), Some(ManCommand::GetLinks));
    assert_eq!(parse_management_command("mend_link 2"), None);
}

#[test]
fn parse_u64_exact_values() {
    assert_eq!(parse_u64("0"), Some(0));
    assert_eq!(parse_u64("42"), Some(42));
    assert_eq!(parse_u64("18446744073709551615"), Some(u64::MAX));
    assert_eq!(parse_u64("18446744073709551616"), None);
    assert_eq!(parse_u64(""), None);
    assert_eq!(parse_u64("1x"), None);
}
