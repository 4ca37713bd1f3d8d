use game_server::action::{Action, Ending, GameReply, ServerEvent};
use game_server::model::{
    Command, CompleteGameResult, Connection, EndedCause, Error, Event, Game, Invite, Player, Rank,
    RoomConf, Task, TaskRequest, User, UserId,
};
use game_server::room::{Answer, Room};
use game_server::server::Server;
use game_server::stream::line_event;
use game_server::table::Table;

fn server() -> Server {
    Server::new("0.0.0.0:1", "alpha", "10.0.0.1:1", "redis://127.0.0.1/")
}

fn no_start(_room: &Room) -> Option<Game> {
    None
}

fn same(game: Game, _dt: usize) -> (Game, Option<(Player, EndedCause)>) {
    (game, None)
}

fn handle(s: &mut Server, event: ServerEvent) -> Result<(), Error> {
    s.handle_event(event, &no_start, &same)
}

fn game() -> Game {
    Game {
        black: UserId::Id(1),
        white: UserId::Id(2),
        map: "map".to_owned(),
        rule: "rule".to_owned(),
        history: "moves".to_owned(),
        position: "p0".to_owned(),
    }
}

/// A room with the users `(connection, user)`, whose king is user 1.
fn room(id: &str, users: &[(u128, u64)]) -> Room {
    let mut table: Table<u128, User> = Table::new();
    for (c, u) in users {
        table.insert(*c, User { conn_id: *c, user_id: UserId::Id(*u) });
    }
    Room {
        id: id.to_owned(),
        users: table,
        conf: RoomConf {
            king: UserId::Id(1),
            black: UserId::Id(1),
            white: UserId::Id(2),
            details: "d".to_owned(),
        },
        game: None,
        rank: None,
    }
}

/// A server on which those users are connected and in that room.
fn server_with(room: Room, users: &[(u128, u64)]) -> Server {
    let mut s = server();
    for (c, u) in users {
        assert!(handle(&mut s, ServerEvent::Connect { conn_id: *c }).is_ok());
        s.conns.insert(
            *c,
            Connection { conn_id: *c, user_id: UserId::Id(*u), room_id: Some(room.id.clone()) },
        );
    }
    s.rooms.insert(room.id.clone(), room);
    s
}

fn key(s: &str) -> String {
    s.to_owned()
}

/// The outbox in short words, emptied.
fn words(s: &mut Server) -> Vec<String> {
    let mut r = Vec::new();
    for a in s.take_outbox() {
        r.push(match a {
            Action::Send { conn_id, event } => format!(
                "send {} {}",
                conn_id,
                match event {
                    Event::Error { message } => format!("error {}", message),
                    Event::Started { game } => format!("started {}", game.position),
                    Event::Ended { loser, winner_delta, loser_delta, player, cause } => format!(
                        "ended {:?} {} {} {:?} {}",
                        loser, winner_delta, loser_delta, player, cause.name
                    ),
                    Event::Left { user } => format!("left {:?}", user),
                    Event::Confed { conf } => {
                        format!("confed {:?} {:?} {:?} {}", conf.king, conf.black, conf.white, conf.details)
                    }
                    Event::Other { json } => json,
                }
            ),
            Action::Shutdown { conn_id } => format!("shutdown {}", conn_id),
            Action::CompleteGame { task, ending } => match task {
                Task::CompleteGame { black, white, rank, loser, cause, map, game_rule, moves } => {
                    format!(
                        "complete {} {:?} {:?} {} {:?} {} {} {} {} / {:?} {:?} {}",
                        ending.room_id, black, white, rank, loser, cause.name, map, game_rule,
                        moves, ending.loser, ending.player, ending.cause.name
                    )
                }
                Task::Other { json } => json,
            },
            Action::Announce { hash, field } => format!("announce {} {}", hash, field),
            Action::RunCommand { conn_id, conn, cmd } => {
                format!("command {} {} {}", conn_id, conn.conn_id, cmd.json)
            }
            Action::RunTask { request } => format!("task {}", request.id),
            Action::PushResult { channel, .. } => format!("result {}", channel),
        });
    }
    r
}

#[test]
fn a_new_connection_is_nobody_in_no_room() {
    let mut s = server();
    assert!(handle(&mut s, ServerEvent::Connect { conn_id: 5 }).is_ok());
    assert!(s.streams.contains(&5));
    assert_eq!(s.conns[&5].conn_id, 5);
    assert_eq!(s.conns[&5].user_id, UserId::Empty);
    assert!(s.conns[&5].room_id.is_none());
    assert!(words(&mut s).is_empty());
}

#[test]
fn closing_a_connection_in_no_room_changes_nothing() {
    let mut s = server();
    assert!(matches!(handle(&mut s, ServerEvent::Close { conn_id: 5 }), Err(Error::Missing)));
    assert!(handle(&mut s, ServerEvent::Connect { conn_id: 5 }).is_ok());
    assert!(matches!(handle(&mut s, ServerEvent::Close { conn_id: 5 }), Err(Error::Missing)));
    assert!(s.conns.contains_key(&5) && s.streams.contains(&5));
    assert!(words(&mut s).is_empty());
}

#[test]
fn closing_in_an_unknown_room_changes_nothing() {
    let users = [(1, 1)];
    let mut s = server_with(room("r", &users), &users);
    s.rooms.remove(&key("r"));
    assert!(matches!(handle(&mut s, ServerEvent::Close { conn_id: 1 }), Err(Error::Missing)));
    assert!(s.conns.contains_key(&1) && s.streams.contains(&1));
}

#[test]
fn rooms_are_found_by_connection() {
    let users = [(1, 1)];
    let mut s = server_with(room("r", &users), &users);
    let inside = s.conns[&1].clone();
    assert_eq!(s.get_room(&inside).map(|r| r.id.clone()).ok(), Some(key("r")));
    let outside = Connection { conn_id: 2, user_id: UserId::Empty, room_id: None };
    assert!(matches!(s.get_room(&outside), Err(Error::Permission)));
    assert!(matches!(s.get_room_mut(&outside), Err(Error::Permission)));
    let lost = Connection { conn_id: 3, user_id: UserId::Empty, room_id: Some(key("x")) };
    assert!(matches!(s.get_room(&lost), Err(Error::Missing)));
    assert!(matches!(s.get_room_mut(&lost), Err(Error::Missing)));
    match s.get_room_mut(&inside) {
        Ok(r) => r.conf.king = UserId::Id(9),
        Err(_) => panic!("no room"),
    }
    assert_eq!(s.get_room(&inside).map(|r| r.conf.king).ok(), Some(UserId::Id(9)));
}

#[test]
fn the_king_hands_over_to_one_who_stays() {
    let users = [(1, 1), (2, 2), (3, 3)];
    for _ in 0..20 {
        let mut s = server_with(room("r", &users), &users);
        assert!(handle(&mut s, ServerEvent::Close { conn_id: 1 }).is_ok());
        let king = match s.rooms.get(&key("r")) {
            Some(r) => r.conf.king,
            None => panic!("no room"),
        };
        assert!(king == UserId::Id(2) || king == UserId::Id(3));
    }
}

#[test]
fn leaving_is_told_and_so_are_changed_settings() {
    let users = [(1, 1), (2, 2)];
    let mut s = server_with(room("r", &users), &users);
    assert!(handle(&mut s, ServerEvent::Close { conn_id: 1 }).is_ok());
    assert_eq!(
        words(&mut s),
        vec![
            "send 2 left Id(1)",
            "send 2 confed Id(2) Empty Id(2) d",
            "announce game_server_hash alpha",
        ]
    );
    assert!(!s.conns.contains_key(&1) && !s.streams.contains(&1));
    assert!(s.conns.contains_key(&2) && s.streams.contains(&2));
    assert!(matches!(handle(&mut s, ServerEvent::Close { conn_id: 1 }), Err(Error::Missing)));
}

#[test]
fn seats_are_kept_during_a_game() {
    let users = [(2, 2), (3, 3)];
    let mut r = room("r", &users);
    r.conf.king = UserId::Id(3);
    r.game = Some(game());
    let mut s = server_with(r, &users);
    assert!(handle(&mut s, ServerEvent::Close { conn_id: 2 }).is_ok());
    assert_eq!(words(&mut s), vec!["send 3 left Id(2)", "announce game_server_hash alpha"]);
    match s.rooms.get(&key("r")) {
        Some(r) => assert_eq!((r.conf.king, r.conf.white), (UserId::Id(3), UserId::Id(2))),
        None => panic!("no room"),
    }
}

#[test]
fn the_last_to_leave_closes_the_room() {
    let users = [(1, 1)];
    let mut s = server_with(room("r", &users), &users);
    assert!(handle(&mut s, ServerEvent::Close { conn_id: 1 }).is_ok());
    assert!(s.rooms.get(&key("r")).is_none());
    assert_eq!(words(&mut s), vec!["announce game_server_hash alpha"]);
}

#[test]
fn an_empty_ranked_room_stays() {
    let users = [(1, 1)];
    let mut r = room("r", &users);
    r.rank = Some(Rank { black: UserId::Id(1), white: UserId::Id(2), time: 5 });
    let mut s = server_with(r, &users);
    assert!(handle(&mut s, ServerEvent::Close { conn_id: 1 }).is_ok());
    match s.rooms.get(&key("r")) {
        Some(r) => {
            assert_eq!(r.users.len(), 0);
            assert_eq!(r.conf.king, UserId::Id(1));
        }
        None => panic!("no room"),
    }
}

#[test]
fn deleting_a_room_takes_the_rooms_under_its_invites_keys() {
    let mut s = server();
    for id in ["r", "i1", "i2", "other"] {
        s.rooms.insert(key(id), room(id, &[]));
    }
    s.invites.insert(key("i1"), Invite { user_id: UserId::Id(1), room_id: key("r") });
    s.invites.insert(key("i2"), Invite { user_id: UserId::Id(1), room_id: key("other") });
    s.delete_room("r");
    assert!(s.rooms.get(&key("r")).is_none());
    assert!(s.rooms.get(&key("i1")).is_none());
    assert!(s.rooms.get(&key("i2")).is_some());
    assert!(s.rooms.get(&key("other")).is_some());
    assert_eq!(s.invites.len(), 2);
    s.delete_room("r");
    assert_eq!(s.rooms.len(), 2);
}

#[test]
fn invites_are_found_by_user_and_room() {
    let mut s = server();
    s.invites.insert(key("a"), Invite { user_id: UserId::Id(1), room_id: key("r") });
    s.invites.insert(key("b"), Invite { user_id: UserId::Id(2), room_id: key("q") });
    match s.get_invite_of_user(UserId::Id(2), "q") {
        Some(i) => assert_eq!((i.user_id, i.room_id.as_str()), (UserId::Id(2), "q")),
        None => panic!("no invite"),
    }
    assert!(s.get_invite_of_user(UserId::Id(2), "r").is_none());
    assert!(s.get_invite_of_user(UserId::Id(1), "q").is_none());
}

#[test]
fn events_reach_those_with_a_stream() {
    let users = [(1, 1), (2, 2)];
    let mut s = server_with(room("r", &[(1, 1), (2, 2), (3, 3)]), &users);
    s.broadcast("r", &Event::Left { user: UserId::Id(4) });
    assert_eq!(words(&mut s), vec!["send 1 left Id(4)", "send 2 left Id(4)"]);
    s.destroy_room("r");
    assert_eq!(words(&mut s), vec!["shutdown 1", "shutdown 2"]);
    s.destroy_room("nowhere");
    s.dispatch(3, &Event::Left { user: UserId::Id(4) });
    s.kick(3);
    assert!(words(&mut s).is_empty());
    s.kick(2);
    s.dispatch(1, &Event::Error { message: key("m") });
    assert_eq!(words(&mut s), vec!["shutdown 2", "send 1 error m"]);
    assert!(s.rooms.get(&key("r")).is_some());
    assert!(s.streams.contains(&2));
}

#[test]
fn commands_and_tasks_are_handed_on() {
    let mut s = server();
    assert!(handle(&mut s, ServerEvent::Connect { conn_id: 5 }).is_ok());
    let cmd = Command { json: key("c") };
    assert!(handle(&mut s, ServerEvent::Command { conn_id: 5, cmd }).is_ok());
    let task_request = TaskRequest { id: key("t"), task: Task::Other { json: key("j") } };
    assert!(handle(&mut s, ServerEvent::TaskRequest { task_request }).is_ok());
    assert!(handle(&mut s, ServerEvent::DiscoverUpdated).is_ok());
    let event = Event::Other { json: key("o") };
    assert!(handle(&mut s, ServerEvent::Dispatch { conn_id: 5, event }).is_ok());
    assert_eq!(
        words(&mut s),
        vec!["command 5 5 c", "task t", "announce game_server_hash alpha", "send 5 o"]
    );
}

#[test]
fn a_command_is_of_the_connection_that_sent_it() {
    let mut s = server();
    s.conns.insert(5, Connection { conn_id: 7, user_id: UserId::Id(1), room_id: None });
    let cmd = Command { json: key("c") };
    assert!(handle(&mut s, ServerEvent::Command { conn_id: 5, cmd }).is_ok());
    assert_eq!(words(&mut s), vec!["command 5 7 c"]);
}

#[test]
fn a_failed_command_is_answered_and_cut_if_it_must_be() {
    let mut s = server();
    assert!(handle(&mut s, ServerEvent::Connect { conn_id: 5 }).is_ok());
    s.command_failed(5, &Error::Permission, key("no"));
    assert_eq!(words(&mut s), vec!["send 5 error no"]);
    s.command_failed(5, &Error::ShouldTerminate(key("x")), key("bye"));
    assert_eq!(words(&mut s), vec!["send 5 error bye", "shutdown 5"]);
    s.command_failed(6, &Error::ShouldTerminate(key("x")), key("bye"));
    assert!(words(&mut s).is_empty());
}

#[test]
fn a_game_is_completed_once() {
    let users = [(1, 1), (2, 2)];
    let mut r = room("r", &users);
    r.game = Some(game());
    r.rank = Some(Rank { black: UserId::Id(1), white: UserId::Id(2), time: -3 });
    let mut s = server_with(r, &users);
    let cause = EndedCause { name: key("timeout") };
    assert!(s.complete_game("r", Player::White, &cause).is_ok());
    assert_eq!(
        words(&mut s),
        vec!["complete r Id(1) Id(2) true White timeout map rule moves / Id(2) White timeout"]
    );
    match s.rooms.get(&key("r")) {
        Some(r) => {
            assert!(r.game.is_none());
            assert_eq!(
                r.rank,
                Some(Rank { black: UserId::Empty, white: UserId::Empty, time: 10000 })
            );
        }
        None => panic!("no room"),
    }
    assert!(matches!(s.complete_game("r", Player::White, &cause), Err(Error::Internal)));
    assert!(matches!(s.complete_game("nowhere", Player::Black, &cause), Err(Error::Internal)));
    assert!(words(&mut s).is_empty());
}

#[test]
fn the_end_of_a_game_is_told_when_the_lobby_has_booked_it() {
    let users = [(1, 1), (2, 2)];
    let mut s = server_with(room("r", &users), &users);
    let ending = || Ending {
        room_id: key("r"),
        loser: UserId::Id(1),
        player: Player::Black,
        cause: EndedCause { name: key("mate") },
    };
    assert!(matches!(s.finish_game(ending(), GameReply::Failed), Err(Error::Internal)));
    assert!(matches!(s.finish_game(ending(), GameReply::Malformed), Err(Error::Json)));
    assert!(words(&mut s).is_empty());
    let done = GameReply::Done(CompleteGameResult { winner_delta: 12, loser_delta: -7 });
    assert!(s.finish_game(ending(), done).is_ok());
    assert_eq!(
        words(&mut s),
        vec!["send 1 ended Id(1) 12 -7 Black mate", "send 2 ended Id(1) 12 -7 Black mate"]
    );
}

#[test]
fn a_ranked_room_waits_and_then_closes() {
    let users = [(1, 1)];
    let mut r = room("r", &users);
    r.rank = Some(Rank { black: UserId::Id(1), white: UserId::Id(2), time: 50 });
    let mut s = server_with(r, &users);
    let mut times = Vec::new();
    for _ in 0..3 {
        assert!(handle(&mut s, ServerEvent::TimeUpdated { dt: 30 }).is_ok());
        match s.rooms.get(&key("r")) {
            Some(Room { rank: Some(rank), .. }) => times.push(rank.time),
            _ => panic!("no ranked room"),
        }
    }
    assert_eq!(times, vec![20, -10, -10]);
    assert_eq!(words(&mut s), vec!["shutdown 1"]);
}

#[test]
fn a_ranked_game_starts_when_both_players_are_here() {
    let users = [(1, 1), (2, 2)];
    let mut r = room("r", &users);
    r.rank = Some(Rank { black: UserId::Id(1), white: UserId::Id(2), time: 50 });
    let mut s = server_with(r, &users);
    let start = |room: &Room| {
        assert!(matches!(room.rank, Some(Rank { time: 20, .. })));
        Some(game())
    };
    let advance = |g: Game, dt: usize| (Game { position: format!("{}+{}", g.position, dt), ..g }, None);
    assert!(s.handle_event(ServerEvent::TimeUpdated { dt: 30 }, &start, &advance).is_ok());
    assert_eq!(words(&mut s), vec!["send 1 started p0", "send 2 started p0"]);
    match s.rooms.get(&key("r")) {
        Some(Room { rank: Some(rank), game: Some(game), .. }) => {
            assert_eq!(rank.time, 20);
            assert_eq!(game.position, "p0+30");
        }
        _ => panic!("no game"),
    }
    assert!(s.handle_event(ServerEvent::TimeUpdated { dt: 5 }, &start, &advance).is_ok());
    assert!(words(&mut s).is_empty());
    match s.rooms.get(&key("r")) {
        Some(Room { rank: Some(rank), game: Some(game), .. }) => {
            assert_eq!(rank.time, 20);
            assert_eq!(game.position, "p0+30+5");
        }
        _ => panic!("no game"),
    }
}

#[test]
fn starts_are_told_before_ends_and_ends_before_cuts() {
    let all = [(1, 1), (2, 2), (3, 3)];
    let mut s = server_with(room("unused", &[]), &all);
    s.rooms.remove(&key("unused"));
    let mut closing = room("closing", &[(3, 3)]);
    closing.rank = Some(Rank { black: UserId::Id(8), white: UserId::Id(9), time: 0 });
    let mut playing = room("playing", &[(2, 2)]);
    playing.game = Some(game());
    let mut starting = room("starting", &[(1, 1)]);
    starting.rank = Some(Rank { black: UserId::Id(1), white: UserId::Id(1), time: 50 });
    s.rooms.insert(key("closing"), closing);
    s.rooms.insert(key("playing"), playing);
    s.rooms.insert(key("starting"), starting);
    let lost = Some((Player::Black, EndedCause { name: key("timeout") }));
    let answers = vec![
        Answer { started: None, advanced: None },
        Answer { started: None, advanced: Some((game(), lost)) },
        Answer {
            started: Some(game()),
            advanced: Some((Game { position: key("p1"), ..game() }, None)),
        },
    ];
    s.time_updated_with(30, &answers);
    assert_eq!(
        words(&mut s),
        vec![
            "send 1 started p0",
            "complete playing Id(1) Id(2) false Black timeout map rule moves / Id(1) Black timeout",
            "shutdown 3",
        ]
    );
    match s.rooms.get(&key("starting")) {
        Some(Room { game: Some(game), .. }) => assert_eq!(game.position, "p1"),
        _ => panic!("no game"),
    }
    assert!(matches!(s.rooms.get(&key("playing")), Some(Room { game: None, rank: None, .. })));
    assert_eq!(s.conns.len(), 3);
}

#[test]
fn a_room_out_of_time_still_starts_its_game() {
    let users = [(1, 1), (2, 2)];
    let mut r = room("r", &users);
    r.rank = Some(Rank { black: UserId::Id(1), white: UserId::Id(2), time: 0 });
    let mut s = server_with(r, &users);
    let start = |_room: &Room| Some(game());
    assert!(s.handle_event(ServerEvent::TimeUpdated { dt: 30 }, &start, &same).is_ok());
    assert_eq!(
        words(&mut s),
        vec!["send 1 started p0", "send 2 started p0", "shutdown 1", "shutdown 2"]
    );
}

#[test]
fn a_chosen_king_is_crowned() {
    let users = [(1, 1), (2, 2), (3, 3)];
    let mut s = server_with(room("r", &users), &users);
    assert!(s.close_with(1, UserId::Id(3)).is_ok());
    match s.rooms.get(&key("r")) {
        Some(r) => {
            assert_eq!(r.conf.king, UserId::Id(3));
            assert!(!r.exists_user(UserId::Id(1)));
            assert!(r.exists_user(UserId::Id(3)));
        }
        None => panic!("no room"),
    }
}

#[test]
fn a_room_under_another_key_may_wait_in_vain() {
    let users = [(1, 1), (2, 2)];
    let mut r = room("r", &users);
    r.rank = Some(Rank { black: UserId::Id(1), white: UserId::Id(2), time: 50 });
    let mut s = server();
    s.rooms.insert(key("k"), r);
    assert!(handle(&mut s, ServerEvent::TimeUpdated { dt: 30 }).is_ok());
    assert!(matches!(s.rooms.get(&key("k")), Some(r) if r.rank.map(|k| k.time) == Some(20)));
    assert!(words(&mut s).is_empty());
}

#[test]
fn a_room_without_a_game_has_none_to_finish() {
    let mut r = room("r", &[]);
    r.rank = Some(Rank { black: UserId::Id(1), white: UserId::Id(2), time: 7 });
    assert!(r.finish().is_none());
    assert_eq!(r.rank, Some(Rank { black: UserId::Id(1), white: UserId::Id(2), time: 7 }));
    r.game = Some(game());
    assert!(r.finish().is_some());
    assert!(r.game.is_none());
    assert_eq!(r.rank, Some(Rank { black: UserId::Empty, white: UserId::Empty, time: 10000 }));
}

#[test]
fn a_line_that_is_no_command_is_answered_and_nothing_else() {
    let mut s = server();
    assert!(handle(&mut s, ServerEvent::Connect { conn_id: 5 }).is_ok());
    assert!(handle(&mut s, ServerEvent::Connect { conn_id: 6 }).is_ok());
    assert!(handle(&mut s, line_event(5, None)).is_ok());
    assert_eq!(words(&mut s), vec!["send 5 error json format error"]);
    assert!(s.conns.contains_key(&5) && s.streams.contains(&5));
}
