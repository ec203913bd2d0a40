use rust_irc::dispatch::{Client, Flow};

fn client() -> Client {
    Client::new("alice".to_string(), "irc.example.net".to_string())
}

#[test]
fn join_without_argument_writes_nothing() {
    let c = client();
    let r = c.dispatch(b"/join");
    assert!(matches!(r.flow, Flow::Continue));
    assert!(r.outbound.is_none());
    assert_eq!(r.notices.len(), 1);
    assert_eq!(r.notices[0], b"Command: /join Parameters: <channel>".to_vec());
}

#[test]
fn join_with_channel() {
    let c = client();
    let r = c.dispatch(b"/join #test");
    assert!(matches!(r.flow, Flow::Continue));
    assert_eq!(r.outbound.unwrap(), b"JOIN #test\r\n".to_vec());
    assert_eq!(r.notices.len(), 0);
}

#[test]
fn msg_joins_the_message_body() {
    let c = client();
    let r = c.dispatch(b"/msg bob hello there");
    assert!(matches!(r.flow, Flow::Continue));
    assert_eq!(r.outbound.unwrap(), b"PRIVMSG bob :hello there\r\n".to_vec());
    assert_eq!(r.notices.len(), 0);
}

#[test]
fn msg_single_word_body() {
    let c = client();
    let r = c.dispatch(b"/msg bob hi");
    assert_eq!(r.outbound.unwrap(), b"PRIVMSG bob :hi\r\n".to_vec());
}

#[test]
fn msg_without_body_is_rejected() {
    let c = client();
    let r = c.dispatch(b"/msg bob");
    assert!(matches!(r.flow, Flow::Continue));
    assert!(r.outbound.is_none());
    assert_eq!(r.notices.len(), 1);
    assert_eq!(r.notices[0], b"Command: /msg Parameters: <receiver> <text>".to_vec());
}

#[test]
fn quit_writes_an_empty_payload() {
    let c = client();
    let r = c.dispatch(b"/quit");
    assert!(matches!(r.flow, Flow::Quit));
    assert_eq!(r.outbound.unwrap(), b"QUIT \r\n".to_vec());
    assert_eq!(r.notices.len(), 0);
}

#[test]
fn unrecognized_verb_is_reported() {
    let c = client();
    let r = c.dispatch(b"/foo");
    assert!(matches!(r.flow, Flow::Continue));
    assert!(r.outbound.is_none());
    assert_eq!(r.notices.len(), 1);
    assert_eq!(r.notices[0], b"Unrecognized command: /foo".to_vec());
}

#[test]
fn empty_input_is_unrecognized() {
    let c = client();
    let r = c.dispatch(b"");
    assert!(matches!(r.flow, Flow::Continue));
    assert!(r.outbound.is_none());
    assert_eq!(r.notices.len(), 1);
    assert_eq!(r.notices[0], b"Unrecognized command: ".to_vec());
}

#[test]
fn part_and_nick() {
    let c = client();
    assert_eq!(c.dispatch(b"/part #ch").outbound.unwrap(), b"PART #ch\r\n".to_vec());
    assert_eq!(c.dispatch(b"/nick neo").outbound.unwrap(), b"NICK neo\r\n".to_vec());
    let r = c.dispatch(b"/nick");
    assert!(r.outbound.is_none());
    assert_eq!(r.notices[0], b"Command: /nick Parameters: <nickname>".to_vec());
}

#[test]
fn topic_takes_channel_and_topic() {
    let c = client();
    let r = c.dispatch(b"/topic #ch news");
    assert_eq!(r.outbound.unwrap(), b"TOPIC #ch news\r\n".to_vec());
    let short = c.dispatch(b"/topic #ch");
    assert!(short.outbound.is_none());
    assert_eq!(short.notices[0], b"Command: /topic Parameters: <channel> <topic>".to_vec());
}

#[test]
fn list_and_names_target_is_optional() {
    let c = client();
    assert_eq!(c.dispatch(b"/list").outbound.unwrap(), b"LIST \r\n".to_vec());
    assert_eq!(c.dispatch(b"/list #ch").outbound.unwrap(), b"LIST #ch\r\n".to_vec());
    assert_eq!(c.dispatch(b"/names").outbound.unwrap(), b"NAMES \r\n".to_vec());
    assert_eq!(c.dispatch(b"/names #ch").outbound.unwrap(), b"NAMES #ch\r\n".to_vec());
}

#[test]
fn help_lists_every_usage_text() {
    let c = client();
    let r = c.dispatch(b"help");
    assert!(matches!(r.flow, Flow::Continue));
    assert!(r.outbound.is_none());
    assert_eq!(r.notices.len(), 8);
    assert_eq!(r.notices[0], b"Command: /quit".to_vec());
    assert_eq!(r.notices[1], b"Command: /join Parameters: <channel>".to_vec());
    assert_eq!(r.notices[7], b"Command: /names Parameters: <channel>".to_vec());
}

#[test]
fn surrounding_whitespace_is_ignored() {
    let c = client();
    let r = c.dispatch(b"  /join \t #test \n");
    assert_eq!(r.outbound.unwrap(), b"JOIN #test\r\n".to_vec());
}

#[test]
fn repeated_spaces_collapse_in_the_body() {
    let c = client();
    let r = c.dispatch(b"/msg bob a  b");
    assert_eq!(r.outbound.unwrap(), b"PRIVMSG bob :a b\r\n".to_vec());
}

#[test]
fn registry_is_built_once() {
    let c = client();
    assert_eq!(c.nick, "alice".to_string());
    assert_eq!(c.server, "irc.example.net".to_string());
    assert_eq!(c.commands.len(), 8);
    assert_eq!(c.commands[0].name, b"/quit".to_vec());
    assert_eq!(c.commands[0].min_args, 0);
    assert_eq!(c.commands[4].name, b"/msg".to_vec());
    assert_eq!(c.commands[4].min_args, 2);
}

#[test]
fn verify_checks_the_token_count() {
    let c = client();
    let toks = vec![b"/join".to_vec()];
    assert!(c.verify(2, &toks).is_none());
    let toks2 = vec![b"/join".to_vec(), b"#ch".to_vec()];
    assert!(c.verify(2, &toks2).is_some());
}
