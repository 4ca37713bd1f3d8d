use std::io::BufRead;

use game_server::action::ServerEvent;
use game_server::model::{Command, Event};
use game_server::names::{
    redis_game_queue, redis_result_channel, REDIS_LOBBY_QUEUE, REDIS_SERVER_HASH, RESULT_TIMEOUT,
};
use game_server::stream::{
    event_line, handle_stream, line_event, stream_of, stream_step, trim_nulls, StreamStep,
};

#[test]
fn queue_names() {
    assert_eq!(redis_game_queue("alpha"), "task_game_queue_alpha");
    assert_eq!(redis_game_queue(""), "task_game_queue_");
    assert_eq!(redis_result_channel("42"), "task_result_chan_42");
    assert_eq!(REDIS_SERVER_HASH, "game_server_hash");
    assert_eq!(REDIS_LOBBY_QUEUE, "task_lobby_queue");
    assert_eq!(RESULT_TIMEOUT, 5);
}

#[test]
fn queue_names_differ() {
    assert_ne!(redis_game_queue("a"), redis_game_queue("b"));
    assert_ne!(redis_result_channel("a"), redis_result_channel("b"));
    assert_ne!(redis_game_queue("a"), redis_result_channel("a"));
    assert_ne!(redis_game_queue("a"), REDIS_LOBBY_QUEUE);
}

#[test]
fn nulls_are_trimmed_at_both_ends() {
    assert_eq!(trim_nulls("\0\0{\"a\":1}\0"), "{\"a\":1}");
    assert_eq!(trim_nulls("a\0b"), "a\0b");
    assert_eq!(trim_nulls("\0\0\0"), "");
    assert_eq!(trim_nulls(""), "");
    assert_eq!(trim_nulls("\0\u{e9}\u{1f3b2}\n"), "\u{e9}\u{1f3b2}\n");
    assert_eq!(trim_nulls("x\0\n"), "x\0\n");
}

#[test]
fn trimming_twice_changes_nothing() {
    let once = trim_nulls("\0ab\0\0");
    assert_eq!(trim_nulls(&once), once);
}

#[test]
fn a_stream_stops_at_its_end_and_on_failure() {
    assert!(matches!(stream_step(Some(0), ""), StreamStep::Stop));
    assert!(matches!(stream_step(None, "left over"), StreamStep::Stop));
    match stream_step(Some(4), "\0go\n") {
        StreamStep::Parse { text } => assert_eq!(text, "go\n"),
        StreamStep::Stop => panic!("stopped"),
    }
}

#[test]
fn a_line_is_a_command_or_is_answered() {
    match line_event(9, Some(Command { json: "{}".to_owned() })) {
        ServerEvent::Command { conn_id, cmd } => {
            assert_eq!(conn_id, 9);
            assert_eq!(cmd.json, "{}");
        }
        _ => panic!("no command"),
    }
    match line_event(9, None) {
        ServerEvent::Dispatch { conn_id, event: Event::Error { message } } => {
            assert_eq!(conn_id, 9);
            assert_eq!(message, "json format error");
        }
        _ => panic!("no answer"),
    }
}

#[test]
fn a_stream_opens_and_closes_under_one_random_id() {
    let (open, id, close) = handle_stream();
    assert!(matches!(open, ServerEvent::Connect { conn_id } if conn_id == id));
    assert!(matches!(close, ServerEvent::Close { conn_id } if conn_id == id));
    assert_eq!((id >> 76) & 0xf, 4);
    assert_eq!((id >> 62) & 0x3, 2);
    assert_ne!(handle_stream().1, id);
}

#[test]
fn the_stream_of_a_connection_opens_and_closes_it() {
    let (open, close) = stream_of(12);
    assert!(matches!(open, ServerEvent::Connect { conn_id: 12 }));
    assert!(matches!(close, ServerEvent::Close { conn_id: 12 }));
}

#[test]
fn an_event_is_one_line() {
    assert_eq!(event_line("{\"type\":\"left\"}".to_owned()), "{\"type\":\"left\"}\n");
}

/// Takes numbers for commands.
fn parse(text: &str) -> Option<Command> {
    match text.trim().parse::<u32>() {
        Ok(n) => Some(Command { json: n.to_string() }),
        Err(_) => None,
    }
}

/// The events of a client that sends `input`, in short words.
fn events(conn_id: u128, input: &str) -> Vec<String> {
    let mut r = Vec::new();
    let mut reader = input.as_bytes();
    let mut msg = String::new();
    loop {
        let read = reader.read_line(&mut msg).ok();
        match stream_step(read, &msg) {
            StreamStep::Stop => return r,
            StreamStep::Parse { text } => {
                r.push(match line_event(conn_id, parse(&text)) {
                    ServerEvent::Command { conn_id, cmd } => format!("{} command {}", conn_id, cmd.json),
                    ServerEvent::Dispatch { conn_id, event: Event::Error { message } } => {
                        format!("{} error {}", conn_id, message)
                    }
                    _ => panic!("not of a line"),
                });
                msg.clear();
            }
        }
    }
}

#[test]
fn every_line_makes_one_event_in_order() {
    assert_eq!(
        events(3, "1\n\0\02\nx\n\n4\0"),
        vec![
            "3 command 1",
            "3 command 2",
            "3 error json format error",
            "3 error json format error",
            "3 command 4",
        ]
    );
    assert!(events(3, "").is_empty());
}

#[test]
fn events_of_whole_lines_follow_each_other() {
    let mut parts = events(3, "1\nx\n");
    parts.extend(events(3, "2\n3"));
    assert_eq!(events(3, "1\nx\n2\n3"), parts);
}
