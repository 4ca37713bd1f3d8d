use game_server::action::{Action, ServerEvent};
use game_server::address::{is_for_redis, is_hostless, is_overlong};
use game_server::model::{Error, Task, TaskRequest, TaskResult};
use game_server::server::Server;
use game_server::task::{popped_item, task_event, task_outcome};

fn server() -> Server {
    match Server::connect("0.0.0.0:1", "alpha", "10.0.0.1:1", "redis://127.0.0.1/") {
        Ok(server) => server,
        Err(_) => panic!("not an address"),
    }
}

#[test]
fn the_address_of_the_task_store_is_checked() {
    assert!(Server::connect("a", "n", "r", "redis://127.0.0.1:6379/2").is_ok());
    assert!(matches!(Server::connect("a", "n", "r", "no address"), Err(Error::Redis)));
    assert!(matches!(Server::connect("a", "n", "r", "http://127.0.0.1/"), Err(Error::Redis)));
    let s = Server::new("a", "n", "r", "redis://127.0.0.1/");
    assert_eq!((s.addr.as_str(), s.name.as_str(), s.real_addr.as_str()), ("a", "n", "r"));
    assert_eq!(s.rooms.len(), 0);
    assert_eq!(s.invites.len(), 0);
    assert!(s.conns.is_empty() && s.streams.is_empty() && s.outbox.is_empty());
}

#[test]
fn an_address_without_a_host_is_refused() {
    let refused = [
        "redis://:6379",
        "redis://:6379/",
        "redis://:6379/1",
        "redis://@:80",
        "redis://:@:80",
        "redis://:80\\/..",
        "redis://:80?x",
        "redis://:80#x@y",
        " redis:/\t/\n:\r80 ",
    ];
    for address in refused {
        assert!(is_hostless(address));
        assert!(matches!(Server::connect("a", "n", "r", address), Err(Error::Redis)));
    }
    let taken = [
        "redis://host",
        "redis://host:6379",
        "redis://:secret@host",
        "redis://:80@host",
        "redis://:80\\@host",
        "redis://u@:80",
        "redis://u:p@:80",
        "redis://@@:80",
        "redis://",
        "redis://:",
        "redis://[::1]:80/0",
    ];
    for address in taken {
        assert!(!is_hostless(address));
        assert!(Server::connect("a", "n", "r", address).is_ok());
    }
    assert!(!is_hostless(""));
    assert!(!is_hostless("/"));
    assert!(!is_hostless("redis:/:80"));
}

#[test]
fn an_address_of_another_scheme_is_refused() {
    let mut long = "http://".to_owned();
    for _ in 0..3999 {
        long.push('a');
    }
    long.push('\u{1062cd}');
    let refused = [
        long.as_str(),
        "",
        "redis",
        "rediss://host",
        "xredis://host",
        "unix:///tmp/redis.sock",
        "redis+unix:///tmp/redis.sock",
        "http://host/",
    ];
    for address in refused {
        assert!(!is_for_redis(address));
        assert!(matches!(Server::connect("a", "n", "r", address), Err(Error::Redis)));
    }
    for address in ["redis://host", "REDIS://host", "\u{1} \tre\ndIs:\r//host"] {
        assert!(is_for_redis(address));
        assert!(!is_overlong(address));
        assert!(Server::connect("a", "n", "r", address).is_ok());
    }
    assert!(is_for_redis("redis:host"));
    assert!(matches!(Server::connect("a", "n", "r", "redis:host"), Err(Error::Redis)));
}

#[test]
fn a_server_is_made_on_a_given_task_store() {
    let client = match redis::Client::open("redis://127.0.0.1/") {
        Ok(client) => client,
        Err(_) => panic!("not an address"),
    };
    let s = Server::with_client("a", "n", "r", client);
    assert_eq!((s.addr.as_str(), s.name.as_str(), s.real_addr.as_str()), ("a", "n", "r"));
    assert_eq!(s.rooms.len(), 0);
    assert_eq!(s.invites.len(), 0);
    assert!(s.conns.is_empty() && s.streams.is_empty() && s.outbox.is_empty());
}

#[test]
fn an_item_that_holds_a_task_makes_an_event() {
    let request = TaskRequest { id: "4".to_owned(), task: Task::Other { json: "x".to_owned() } };
    match task_event(Some(request)) {
        Some(ServerEvent::TaskRequest { task_request }) => {
            assert_eq!(task_request.id, "4");
            assert!(matches!(task_request.task, Task::Other { json } if json == "x"));
        }
        _ => panic!("no task"),
    }
    assert!(task_event(None).is_none());
}

#[test]
fn a_task_goes_to_the_lobby_under_its_id() {
    let call = server().request_task_with("77".to_owned(), Task::Other { json: "x".to_owned() });
    assert_eq!(call.queue, "task_lobby_queue");
    assert_eq!(call.channel, "task_result_chan_77");
    assert_eq!(call.request.id, "77");
    assert_eq!(call.timeout, 5);
    assert!(matches!(call.request.task, Task::Other { json } if json == "x"));
}

#[test]
fn a_new_task_has_a_random_hyphenated_id() {
    let s = server();
    let call = s.request_task(Task::Other { json: String::new() });
    let id = call.request.id;
    assert_eq!(call.channel, format!("task_result_chan_{}", id));
    assert_eq!(id.len(), 36);
    let parsed = match uuid::Uuid::parse_str(&id) {
        Ok(parsed) => parsed,
        Err(_) => panic!("no identifier"),
    };
    assert_eq!(parsed.get_version_num(), 4);
    assert_eq!(parsed.to_string(), id);
    for (i, c) in id.chars().enumerate() {
        if i == 8 || i == 13 || i == 18 || i == 23 {
            assert_eq!(c, '-');
        } else {
            assert!(c.is_ascii_digit() || ('a'..='f').contains(&c));
        }
    }
    let other = s.request_task(Task::Other { json: String::new() });
    assert_ne!(other.channel, call.channel);
}

#[test]
fn the_queue_of_a_server_bears_its_name() {
    assert_eq!(server().task_queue(), "task_game_queue_alpha");
}

#[test]
fn a_pop_gives_the_second_item() {
    let reply = vec!["queue".to_owned(), "item".to_owned()];
    assert_eq!(popped_item(&reply).map(|s| s.as_str()).ok(), Some("item"));
    assert!(matches!(popped_item(&vec!["queue".to_owned()]), Err(Error::Missing)));
    assert!(matches!(popped_item(&Vec::new()), Err(Error::Missing)));
}

#[test]
fn an_outcome_is_read_back_as_it_was_sent() {
    let mut s = server();
    s.task_done("5", Ok("done".to_owned()));
    s.task_done("6", Err("no room".to_owned()));
    let sent = s.take_outbox();
    assert_eq!(sent.len(), 2);
    assert!(s.outbox.is_empty());
    let mut results: Vec<(String, TaskResult)> = Vec::new();
    for action in sent {
        match action {
            Action::PushResult { channel, result } => results.push((channel, result)),
            _ => panic!("no result"),
        }
    }
    let (channel, failed) = match results.pop() {
        Some(r) => r,
        None => panic!("nothing"),
    };
    assert_eq!(channel, "task_result_chan_6");
    assert_eq!(failed.value, "");
    assert!(matches!(task_outcome(failed), Err(Error::TaskError(m)) if m == "no room"));
    let (channel, done) = match results.pop() {
        Some(r) => r,
        None => panic!("nothing"),
    };
    assert_eq!(channel, s.request_task_with("5".to_owned(), Task::Other { json: String::new() }).channel);
    assert!(matches!(task_outcome(done), Ok(v) if v == "done"));
}

#[test]
fn an_error_outweighs_a_value() {
    let result = TaskResult { error: Some("e".to_owned()), value: "v".to_owned() };
    assert!(matches!(task_outcome(result), Err(Error::TaskError(m)) if m == "e"));
}
