use twitch_logger::buffer::BatchBuffer;
use twitch_logger::chat::ChatMessage;
use twitch_logger::config::Config;
use twitch_logger::console_logger::ConsoleLogger;
use twitch_logger::console_logger::Level;
use twitch_logger::db_logger::build_insert_query;
use twitch_logger::db_logger::DbLogger;
use twitch_logger::error::Error;
use twitch_logger::config::ChannelConfig;
use twitch_logger::error::get_stacktrace;
use twitch_logger::file_logger::FileLogger;
use twitch_logger::handler::MessageHandler;

fn msg(text: &str, at: u64) -> ChatMessage {
    ChatMessage::new(String::from("foo"), String::from("alice"), String::from(text), at)
}

#[test]
fn five_second_window_scenario() {
    // three events inside the first five-second window, a fourth after it
    let mut buf = BatchBuffer::new(5000, 0);
    assert!(buf.on_tick(100).is_none());
    buf.push(msg("one", 0));
    buf.push(msg("two", 0));
    assert!(buf.on_tick(200).is_none());
    buf.push(msg("three", 4));
    let first = buf.on_tick(5000).expect("the window has closed");
    assert_eq!(first.len(), 3);
    assert_eq!(first[0].message, "one");
    assert_eq!(first[1].message, "two");
    assert_eq!(first[2].message, "three");
    buf.push(msg("four", 5));
    assert!(buf.on_tick(5100).is_none());
    let second = buf.on_tick(10000).expect("the second window has closed");
    assert_eq!(second.len(), 1);
    assert_eq!(second[0].message, "four");
}

#[test]
fn idle_window_flushes_empty_batch_as_no_op() {
    let mut buf = BatchBuffer::new(5000, 0);
    let batch = buf.on_tick(5000).expect("an idle window still flushes");
    assert_eq!(batch.len(), 0);
    let mut sink = DbLogger::new(String::from("chat_log"));
    assert!(sink.create_log_batch(&batch).is_ok());
    assert_eq!(sink.rows().len(), 0);
    assert_eq!(sink.transactions_started(), 0);
}

#[test]
fn batch_persists_all_rows_or_none() {
    let mut sink = DbLogger::new(String::from("chat_log"));
    let batch = vec![msg("a", 1), msg("b", 2), msg("c", 3)];
    // a connection lost before the second row: nothing becomes visible
    sink.set_fail_before_row(Some(1));
    assert!(sink.create_log_batch(&batch).is_err());
    assert_eq!(sink.rows().len(), 0);
    assert_eq!(sink.transactions_started(), 1);
    // the connection is back: all three rows become visible at once
    sink.set_fail_before_row(None);
    assert!(sink.create_log_batch(&batch).is_ok());
    assert_eq!(sink.rows().len(), 3);
    assert_eq!(sink.rows()[0].message, "a");
    assert_eq!(sink.rows()[2].message, "c");
    assert_eq!(sink.transactions_started(), 2);
}

#[test]
fn single_row_write() {
    let mut sink = DbLogger::new(String::from("chat_log"));
    assert!(sink.create_log(&msg("solo", 9)).is_ok());
    assert_eq!(sink.rows().len(), 1);
    assert_eq!(sink.rows()[0].message, "solo");
}

#[test]
fn insert_query_shape() {
    assert_eq!(
        build_insert_query("chat_log"),
        "INSERT INTO chat_log (username, message, channel, sent_at) VALUES ($1, $2, $3, $4)"
    );
}

#[test]
fn aux_sink_failure_does_not_stop_the_durable_path() {
    let mut h = MessageHandler::new(5000, 0);
    h.start();
    let (console_line, file_line) = h.handle_event(msg("first", 0));
    assert_eq!(console_line, "1970-01-01 00:00:00 (#foo) alice: first");
    assert_eq!(
        file_line,
        "{\"channel\":\"foo\",\"username\":\"alice\",\"message\":\"first\",\"sent_at\":0}"
    );
    // the file sink just failed; the pipeline counts it and goes on
    h.note_aux_failure();
    h.handle_event(msg("second", 1));
    let batch = h.on_tick(5000).expect("the window has closed");
    assert_eq!(batch.len(), 2);
    let mut sink = DbLogger::new(String::from("chat_log"));
    assert!(sink.create_log_batch(&batch).is_ok());
    assert_eq!(sink.rows().len(), 2);
    assert_eq!(sink.rows()[0].message, "first");
    assert_eq!(sink.rows()[1].message, "second");
}

#[test]
fn draining_flushes_the_last_window() {
    let mut h = MessageHandler::new(5000, 0);
    h.start();
    h.handle_event(msg("tail", 2));
    h.begin_drain();
    let last = h.drain_flush(2500);
    assert_eq!(last.len(), 1);
    assert_eq!(last[0].message, "tail");
    h.finish();
}

#[test]
fn console_level_parsing() {
    let base = Config::new(None, None, None, None, None, None, None);
    let with = |lvl: &str| {
        Config::new(None, None, None, None, Some(String::from(lvl)), None, None)
    };
    assert!(matches!(ConsoleLogger::from_config(&base), Err(Error::MissingConfig(k)) if k == "log_level"));
    assert!(matches!(ConsoleLogger::from_config(&with("ERROR")), Ok(c) if c.level == Level::Error));
    assert!(matches!(ConsoleLogger::from_config(&with("warn")), Ok(c) if c.level == Level::Warn));
    assert!(matches!(ConsoleLogger::from_config(&with("Info")), Ok(c) if c.level == Level::Info));
    assert!(matches!(ConsoleLogger::from_config(&with("debug")), Ok(c) if c.level == Level::Debug));
    assert!(matches!(ConsoleLogger::from_config(&with("trace")), Ok(c) if c.level == Level::Trace));
    assert!(matches!(ConsoleLogger::from_config(&with("loud")), Err(Error::InvalidConfig(k)) if k == "log_level"));
}

#[test]
fn file_sink_from_config() {
    let none = Config::new(None, None, None, None, None, None, None);
    assert!(matches!(FileLogger::from_config(&none), Err(Error::MissingConfig(k)) if k == "log_file"));
    let some = Config::new(
        None,
        None,
        None,
        Some(String::from("/tmp/chat.log")),
        None,
        None,
        None,
    );
    let f = FileLogger::from_config(&some).unwrap();
    assert_eq!(f.path, "/tmp/chat.log");
    assert_eq!(f.formatted_line("a line"), "a line\n");
}

#[test]
fn db_sink_from_config() {
    let none = Config::new(None, None, None, None, None, None, None);
    assert!(matches!(DbLogger::from_config(&none), Err(Error::MissingConfig(k)) if k == "db_table"));
    let some = Config::new(None, None, None, None, None, None, Some(String::from("chat_log")));
    assert!(DbLogger::from_config(&some).is_ok());
}

#[test]
fn channel_names_keep_configuration_order() {
    let cfg = Config::new(
        None,
        None,
        Some(vec![
            (String::from("foo"), ChannelConfig {}),
            (String::from("bar"), ChannelConfig {}),
        ]),
        None,
        None,
        None,
        None,
    );
    let names = cfg.channel_names();
    assert_eq!(names, vec![String::from("foo"), String::from("bar")]);
}

#[test]
fn error_descriptions() {
    assert_eq!(
        Error::MissingEnv(String::from("ACCESS_TOKEN")).description(),
        "Missing environment variable: ACCESS_TOKEN"
    );
    assert_eq!(
        Error::MissingConfig(String::from("db_table")).description(),
        "Missing config value: db_table"
    );
    assert_eq!(
        Error::InvalidConfig(String::from("log_level")).description(),
        "Invalid config value: log_level"
    );
    assert_eq!(Error::Unspecified.description(), "Unspecified error, please report this");
    let parse = Error::FailedToParse {
        key: String::from("N"),
        value: String::from("12x"),
        error: None,
    };
    assert_eq!(parse.description(), "Failed to parse 12x as N");
}

#[test]
fn stacktrace_joins_cause_chain() {
    let chain = vec![
        String::from("outermost failed"),
        String::from("middle failed"),
        String::from("root cause"),
    ];
    assert_eq!(get_stacktrace(&chain), "outermost failed\nmiddle failed\nroot cause");
    assert_eq!(get_stacktrace(&Vec::new()), "");
}
