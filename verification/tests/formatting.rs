use twitch_logger::chat::ChatMessage;
use twitch_logger::chat_message_format::format_json;
use twitch_logger::chat_message_format::format_simple;
use twitch_logger::chat_message_format::parse_structured;
use twitch_logger::chat_message_format::ChatMessageFormat;

fn sample() -> ChatMessage {
    ChatMessage::new(
        String::from("foo"),
        String::from("alice"),
        String::from("hello there"),
        1700000000,
    )
}

#[test]
fn plain_format_exact() {
    let m = ChatMessage::new(String::from("foo"), String::from("alice"), String::from("hi"), 0);
    let line = format_simple(&m);
    assert_eq!(line, "1970-01-01 00:00:00 (#foo) alice: hi");
}

#[test]
fn plain_format_last_second_of_day() {
    let m = ChatMessage::new(String::from("foo"), String::from("bob"), String::from("x"), 86399);
    assert_eq!(format_simple(&m), "1970-01-01 23:59:59 (#foo) bob: x");
}

#[test]
fn plain_format_known_moment() {
    // 2023-11-14 22:13:20 UTC
    let line = format_simple(&sample());
    assert_eq!(line, "2023-11-14 22:13:20 (#foo) alice: hello there");
}

#[test]
fn structured_format_exact() {
    let line = format_json(&sample());
    assert_eq!(
        line,
        "{\"channel\":\"foo\",\"username\":\"alice\",\"message\":\"hello there\",\"sent_at\":1700000000}"
    );
}

#[test]
fn structured_escapes_quotes_and_backslashes() {
    let m = ChatMessage::new(
        String::from("foo"),
        String::from("alice"),
        String::from("say \"hi\" \\ now"),
        7,
    );
    let line = format_json(&m);
    assert_eq!(
        line,
        "{\"channel\":\"foo\",\"username\":\"alice\",\"message\":\"say \\\"hi\\\" \\\\ now\",\"sent_at\":7}"
    );
}

#[test]
fn structured_round_trip() {
    let m = ChatMessage::new(
        String::from("foo"),
        String::from("al\"ice"),
        String::from("a \\ b \"quoted\" c"),
        18446744073709551615,
    );
    let line = ChatMessageFormat::Json.format(&m);
    let back = parse_structured(&line).expect("the structured line must parse");
    assert_eq!(back.channel, m.channel);
    assert_eq!(back.username, m.username);
    assert_eq!(back.message, m.message);
    assert_eq!(back.sent_at, m.sent_at);
}

#[test]
fn format_is_pure() {
    let m = sample();
    assert_eq!(format_simple(&m), format_simple(&m));
    assert_eq!(format_json(&m), format_json(&m));
    assert_eq!(
        ChatMessageFormat::Simple.format(&m),
        ChatMessageFormat::Simple.format(&m)
    );
}

#[test]
fn parse_rejects_malformed_lines() {
    assert!(parse_structured("").is_none());
    assert!(parse_structured("{\"channel\":\"foo\"}").is_none());
    assert!(parse_structured(
        "{\"channel\":\"foo\",\"username\":\"a\",\"message\":\"m\",\"sent_at\":}"
    )
    .is_none());
    // an unescaped value with no closing quote
    assert!(parse_structured("{\"channel\":\"foo").is_none());
    // seconds beyond u64
    assert!(parse_structured(
        "{\"channel\":\"f\",\"username\":\"a\",\"message\":\"m\",\"sent_at\":18446744073709551616}"
    )
    .is_none());
}

#[test]
fn display_line() {
    let m = sample();
    assert_eq!(m.display_string(), "[#foo] alice: hello there");
}
