//! What calls of the operations come to: of each, what it hands back and what
//! it leaves behind.

use vstd::prelude::*;

use crate::action::{
    actions, Action, ActionModel, Ending, EndingModel, GameReply, ServerEvent, ServerEventModel,
};
use crate::address::{for_redis, hostless, is_for_redis, is_hostless, is_overlong, overlong};
use crate::listing::{entries, lemma_lists_same, lists};
use crate::model::{
    Command, ConnectionModel, Connection, EndedCause, Error, Event, EventModel, Game, Invite,
    Player, Rank, ResultModel, RoomConf, Task, TaskModel, TaskRequest, TaskResult, User, UserId,
};
use crate::names::{redis_game_queue, redis_result_channel};
use crate::outside::{hyphenated, is_random_id, redis_open};
use crate::room::{answered, waited_room, Answer, Room, RoomModel};
use crate::room_laws::{
    a_king_is_chosen_among_all_others, leaving_frees_own_seats_only, leaving_takes_nothing_else,
    only_a_leaving_king_is_replaced, the_rules_are_asked_where_both_players_are,
    who_stays_has_another_connection,
};
use crate::server::{all_answered, answer_models, texts, Server};
use crate::server_laws::{
    a_broadcast_is_one_send_per_user, a_game_is_on_by_key,
    a_king_is_lost_with_the_kings_connection, deleting_leaves_all_other_rooms,
    destroying_is_one_cut_per_user, destroying_nothing_does_nothing, ending_a_game_books_that_game, ending_no_game_does_nothing,
    the_end_of_a_game_is_told_as_booked,
};
use crate::state::{invites_user, rooms_closing, ServerModel};
use crate::stream::{
    event_line, handle_stream, line_event, stream_of, stream_step, trim_nulls,
    trimmed_is_the_middle, StreamStep,
};
use crate::table::{
    distinct, lemma_at, putting_changes_one_entry, taking_out_spares_all_other_keys, Table, TableKey,
};
use crate::task::{popped_item, task_event, task_outcome, TaskCall};
use crate::tick_laws::{every_room_after_a_tick, the_rules_are_asked_of_every_room};

verus! {

/// Broadcasting sends the event once to each user of the room that has a
/// stream, in the order of the users, and does nothing else.
pub proof fn broadcasting(s: &mut Server, room_id: &str, event: &Event, i: int) -> (to: Seq<int>)
    requires
        call_ensures(Server::broadcast, (s, room_id, event), ()),
        old(s)@.wf(),
        0 <= i < old(s)@.rooms.len(),
        old(s)@.rooms[i].0 == room_id@,
    ensures
        lists(
            to,
            old(s)@.rooms[i].1.users.len() as int,
            |k: int| old(s)@.streams.contains(old(s)@.rooms[i].1.users[k].1.conn_id),
        ),
        final(s)@ == (ServerModel {
            outbox: old(s)@.outbox + Seq::new(
                to.len(),
                |k: int|
                    ActionModel::Send {
                        conn_id: old(s)@.rooms[i].1.users[to[k]].1.conn_id,
                        event: event@,
                    },
            ),
            ..old(s)@
        }),
{
    a_broadcast_is_one_send_per_user(old(s)@, i, event@)
}

/// Completing a game, ranked or not, succeeds where it is on, and asks the
/// lobby to book it with its own players, map, rule and moves, naming as loser
/// the user who played the losing side.
pub proof fn completing_a_game(
    s: &mut Server,
    room_id: &str,
    loser: Player,
    cause: &EndedCause,
    r: Result<(), Error>,
    i: int,
)
    requires
        call_ensures(Server::complete_game, (s, room_id, loser, cause), r),
        old(s)@.wf(),
        0 <= i < old(s)@.rooms.len(),
        old(s)@.rooms[i].0 == room_id@,
        old(s)@.rooms[i].1.game is Some,
    ensures
        r is Ok,
        ({
            let room = old(s)@.rooms[i].1;
            let game = room.game->0;
            &&& final(s)@.outbox == old(s)@.outbox + seq![
                ActionModel::CompleteGame {
                    task: TaskModel::CompleteGame {
                        black: game.black,
                        white: game.white,
                        rank: room.rank is Some,
                        loser,
                        cause: cause.name@,
                        map: game.map,
                        game_rule: game.rule,
                        moves: game.history,
                    },
                    ending: EndingModel {
                        room_id: room_id@,
                        loser: match loser {
                            Player::Black => game.black,
                            Player::White => game.white,
                        },
                        player: loser,
                        cause: cause.name@,
                    },
                },
            ]
            &&& final(s)@.rooms == old(s)@.rooms.update(
                i,
                (
                    room_id@,
                    RoomModel {
                        game: None,
                        rank: match room.rank {
                            Some(_) => Some(
                                Rank { black: UserId::Empty, white: UserId::Empty, time: 10000 },
                            ),
                            None => None,
                        },
                        ..room
                    },
                ),
            )
            &&& final(s)@ == (ServerModel {
                rooms: final(s)@.rooms,
                outbox: final(s)@.outbox,
                ..old(s)@
            })
        }),
{
    ending_a_game_books_that_game(old(s)@, i, loser, cause@);
    a_game_is_on_by_key(old(s)@, i);
}

/// Completing a game that is not on fails and does nothing.
pub proof fn completing_no_game(
    s: &mut Server,
    room_id: &str,
    loser: Player,
    cause: &EndedCause,
    r: Result<(), Error>,
)
    requires
        call_ensures(Server::complete_game, (s, room_id, loser, cause), r),
        old(s)@.wf(),
        forall|i: int|
            0 <= i < old(s)@.rooms.len() && (#[trigger] old(s)@.rooms[i]).0 == room_id@
                ==> old(s)@.rooms[i].1.game is None,
    ensures
        r matches Err(Error::Internal),
        final(s)@ == old(s)@,
{
    ending_no_game_does_nothing(old(s)@, room_id@, loser, cause@);
}

/// A room is told of the end of its game once for each user that has a stream,
/// with the loser, the player and the cause of the ending, and with the changes
/// of the ratings as the lobby gave them, whichever player lost. Without such a
/// reply nobody is told.
pub proof fn finishing_a_game(
    s: &mut Server,
    ending: Ending,
    reply: GameReply,
    r: Result<(), Error>,
    i: int,
) -> (to: Seq<int>)
    requires
        call_ensures(Server::finish_game, (s, ending, reply), r),
        old(s)@.wf(),
        0 <= i < old(s)@.rooms.len(),
        old(s)@.rooms[i].0 == ending.room_id@,
    ensures
        lists(
            to,
            old(s)@.rooms[i].1.users.len() as int,
            |k: int| old(s)@.streams.contains(old(s)@.rooms[i].1.users[k].1.conn_id),
        ),
        reply matches GameReply::Done(result) ==> {
            &&& r is Ok
            &&& final(s)@ == (ServerModel {
                outbox: old(s)@.outbox + Seq::new(
                    to.len(),
                    |k: int|
                        ActionModel::Send {
                            conn_id: old(s)@.rooms[i].1.users[to[k]].1.conn_id,
                            event: EventModel::Ended {
                                loser: ending.loser,
                                winner_delta: result.winner_delta,
                                loser_delta: result.loser_delta,
                                player: ending.player,
                                cause: ending.cause.name@,
                            },
                        },
                ),
                ..old(s)@
            })
        },
        reply is Failed ==> (r matches Err(Error::Internal)) && final(s)@ == old(s)@,
        reply is Malformed ==> (r matches Err(Error::Json)) && final(s)@ == old(s)@,
{
    match reply {
        GameReply::Done(result) => the_end_of_a_game_is_told_as_booked(
            old(s)@,
            i,
            ending@,
            result,
        ),
        _ => a_broadcast_is_one_send_per_user(old(s)@, i, EventModel::Left { user: UserId::Empty }),
    }
}

/// Asking the rules of the game for a room starts a game exactly where the room
/// is ranked, has none, and has both players among its users, and lets the game
/// that is then on go on.
pub proof fn asking_the_rules<S, A>(room: &Room, dt: usize, start: &S, advance: &A, r: Answer) where
    S: Fn(&Room) -> Option<Game>,
    A: Fn(Game, usize) -> (Game, Option<(Player, EndedCause)>),

    requires
        call_ensures(Room::ask::<S, A>, (room, dt, start, advance), r),
    ensures
        ({
            let here = |u: UserId|
                exists|k: int|
                    0 <= k < room.users@.len() && (#[trigger] room.users@[k]).1.user_id == u;
            &&& room.game is None && room.rank is Some && here(room.rank->0.black) && here(
                room.rank->0.white,
            ) ==> call_ensures(*start, (room,), r.started)
            &&& room.game is Some || room.rank is None || !here(room.rank->0.black) || !here(
                room.rank->0.white,
            ) ==> r.started is None
            &&& room.game matches Some(game) ==> r.advanced is Some && call_ensures(
                *advance,
                (game, dt),
                r.advanced->0,
            )
            &&& r.started matches Some(game) ==> r.advanced is Some && call_ensures(
                *advance,
                (game, dt),
                r.advanced->0,
            )
            &&& room.game is None && r.started is None ==> r.advanced is None
        }),
{
    the_rules_are_asked_where_both_players_are(*room, dt, *start, *advance, r);
}

/// A user who leaves a room frees no seat but the own one, and that only while
/// no game is on; is followed as king only by the king that is given, and only
/// where the user was king and others are there; and takes nothing else along.
/// The settings are handed back exactly where they changed.
pub proof fn leaving_a_room(
    room: &mut Room,
    conn_id: u128,
    user_id: UserId,
    king: UserId,
    changed: Option<RoomConf>,
) -> (at: Seq<int>)
    requires
        call_ensures(Room::leave, (room, conn_id, user_id, king), changed),
        old(room)@.wf(),
    ensures
        ({
            let before = old(room)@;
            let after = final(room)@;
            &&& lists(at, before.users.len() as int, |i: int| before.users[i].0 != conn_id)
            &&& after.users == Seq::new(at.len(), |k: int| before.users[at[k]])
            &&& before.conf.black != user_id || before.game is Some ==> after.conf.black
                == before.conf.black
            &&& before.conf.white != user_id || before.game is Some ==> after.conf.white
                == before.conf.white
            &&& before.conf.black == user_id && before.game is None ==> after.conf.black
                == UserId::Empty
            &&& before.conf.white == user_id && before.game is None ==> after.conf.white
                == UserId::Empty
            &&& before.conf.king != user_id ==> after.conf.king == before.conf.king
            &&& (forall|i: int|
                0 <= i < before.users.len() ==> (#[trigger] before.users[i]).0 == conn_id)
                ==> after.conf.king == before.conf.king
            &&& before.conf.king == user_id && (exists|i: int|
                0 <= i < before.users.len() && (#[trigger] before.users[i]).0 != conn_id)
                ==> after.conf.king == king
            &&& after.conf.details == before.conf.details
            &&& after.id == before.id
            &&& after.game == before.game
            &&& after.rank == before.rank
            &&& changed is Some <==> after.conf != before.conf
            &&& changed matches Some(conf) ==> conf@ == after.conf
        }),
{
    leaving_frees_own_seats_only(old(room)@, conn_id, user_id, king);
    only_a_leaving_king_is_replaced(old(room)@, conn_id, user_id, king);
    leaving_takes_nothing_else(old(room)@, conn_id, user_id, king)
}

/// A room that waits loses the time that passed, where it is ranked, has no
/// game and has time left, and says whether it had none; nothing else changes.
pub proof fn waiting(room: &mut Room, dt: usize, closing: bool)
    requires
        call_ensures(Room::wait, (room, dt), closing),
        old(room)@.wait_fits(dt),
    ensures
        closing <==> old(room).rank is Some && old(room).game is None && old(room).rank->0.time <= 0,
        old(room).rank is None || old(room).game is Some || old(room).rank->0.time <= 0
            ==> final(room)@ == old(room)@,
        old(room).rank is Some && old(room).game is None && old(room).rank->0.time > 0
            ==> final(room)@ == (RoomModel {
            rank: Some(
                Rank {
                    black: old(room).rank->0.black,
                    white: old(room).rank->0.white,
                    time: (old(room).rank->0.time - (dt as isize)) as isize,
                },
            ),
            ..old(room)@
        }),
        *final(room) == waited_room(*old(room), dt),
{
}

/// The room of a connection is found under the id that the connection names:
/// without one that is not permitted, and without such a room it is missing.
pub proof fn finding_the_room_of_a_connection(
    s: &Server,
    conn: &Connection,
    r: Result<&Room, Error>,
    i: int,
)
    requires
        call_ensures(Server::get_room, (s, conn), r),
        s@.wf(),
    ensures
        conn.room_id is None ==> r matches Err(Error::Permission),
        conn.room_id is Some && (forall|j: int|
            0 <= j < s@.rooms.len() ==> (#[trigger] s@.rooms[j]).0 != conn.room_id->0@) ==> r matches Err(
            Error::Missing,
        ),
        conn.room_id is Some && 0 <= i < s@.rooms.len() && s@.rooms[i].0 == conn.room_id->0@ ==> {
            &&& r is Ok
            &&& r->Ok_0@ == s@.rooms[i].1
        },
{
    if 0 <= i < s@.rooms.len() {
        lemma_at(s@.rooms, i);
    }
}

/// An invite is found exactly where one invites that user to that room, and it
/// is then one of those.
pub proof fn finding_an_invite(
    s: &Server,
    user_id: UserId,
    room_id: &str,
    r: Option<Invite>,
    i: int,
)
    requires
        call_ensures(Server::get_invite_of_user, (s, user_id, room_id), r),
    ensures
        r matches Some(invite) ==> invite.user_id == user_id && invite.room_id@ == room_id@
            && exists|j: int| 0 <= j < s@.invites.len() && (#[trigger] s@.invites[j]).1 == invite@,
        0 <= i < s@.invites.len() && s@.invites[i].1.user_id == user_id && s@.invites[i].1.room_id
            == room_id@ ==> r is Some,
{
    if 0 <= i < s@.invites.len() && r is None {
        assert(!invites_user(s@.invites[i].1, user_id, room_id@));
    }
}

/// Handling an event does what that event is for, and nothing else: a
/// connection comes, a command or a task is handed on with who sent it, the
/// server announces itself, an event goes to its connection, a connection
/// closes, or time passes for all rooms.
pub proof fn handling_an_event<S, A>(
    s: &mut Server,
    event: ServerEvent,
    start: &S,
    advance: &A,
    r: Result<(), Error>,
) where S: Fn(&Room) -> Option<Game>, A: Fn(Game, usize) -> (Game, Option<(Player, EndedCause)>)
    requires
        call_ensures(Server::handle_event::<S, A>, (s, event, start, advance), r),
        call_requires(Server::handle_event::<S, A>, (s, event, start, advance)),
    ensures
        event !is Close ==> r is Ok,
        event matches ServerEvent::Connect { conn_id } ==> final(s)@ == (ServerModel {
            conns: old(s)@.conns.insert(
                conn_id,
                ConnectionModel { conn_id, user_id: UserId::Empty, room_id: None },
            ),
            streams: old(s)@.streams.insert(conn_id),
            ..old(s)@
        }),
        event matches ServerEvent::Command { conn_id, cmd } ==> final(s)@ == (ServerModel {
            outbox: old(s)@.outbox.push(
                ActionModel::RunCommand {
                    conn_id,
                    conn: old(s)@.conns[conn_id],
                    cmd: cmd.json@,
                },
            ),
            ..old(s)@
        }),
        event matches ServerEvent::TaskRequest { task_request } ==> final(s)@ == (ServerModel {
            outbox: old(s)@.outbox.push(ActionModel::RunTask { request: task_request@ }),
            ..old(s)@
        }),
        event is DiscoverUpdated ==> final(s)@ == (ServerModel {
            outbox: old(s)@.outbox.push(
                ActionModel::Announce { hash: "game_server_hash"@, field: old(s)@.name },
            ),
            ..old(s)@
        }),
        event matches ServerEvent::Dispatch { conn_id, event: e } ==> final(s)@
            == old(s)@.dispatched(conn_id, e@),
        event matches ServerEvent::Close { conn_id } ==> {
            &&& r is Ok <==> old(s)@.in_room(conn_id)
            &&& r is Err ==> (r matches Err(Error::Missing)) && final(s)@ == old(s)@
            &&& exists|king: UserId|
                {
                    &&& final(s)@ == #[trigger] old(s)@.closed(conn_id, king)
                    &&& old(s)@.in_room(conn_id) && old(s)@.loses_king(conn_id)
                        ==> old(s)@.room_of(conn_id).stays(conn_id, king)
                }
        },
        event matches ServerEvent::TimeUpdated { dt } ==> exists|answers: Seq<Answer>|
            all_answered(old(s).rooms.raw(), dt, *start, *advance, answers) && final(s)@
                == old(s)@.ticked(dt, #[trigger] answer_models(answers)),
{
}

/// When time has passed, a room that had no game has one only if it is ranked
/// and both players of its next game are among its users; and the games that
/// are on went on as the rules of the game have it.
pub proof fn letting_time_pass<S, A>(
    s: &mut Server,
    dt: usize,
    start: &S,
    advance: &A,
    i: int,
) where S: Fn(&Room) -> Option<Game>, A: Fn(Game, usize) -> (Game, Option<(Player, EndedCause)>)
    requires
        call_ensures(Server::time_updated::<S, A>, (s, dt, start, advance), ()),
        call_requires(Server::time_updated::<S, A>, (s, dt, start, advance)),
        old(s)@.wf(),
        old(s)@.waits_fit(dt),
        0 <= i < old(s)@.rooms.len(),
    ensures
        final(s)@.rooms.len() == old(s)@.rooms.len(),
        final(s)@.rooms[i].0 == old(s)@.rooms[i].0,
        final(s)@.rooms[i].1.users == old(s)@.rooms[i].1.users,
        final(s)@.rooms[i].1.conf == old(s)@.rooms[i].1.conf,
        old(s)@.rooms[i].1.game is None && final(s)@.rooms[i].1.game is Some ==> {
            &&& old(s)@.rooms[i].1.rank is Some
            &&& exists|k: int|
                0 <= k < old(s)@.rooms[i].1.users.len() && (
                #[trigger] old(s)@.rooms[i].1.users[k]).1.user_id
                    == old(s)@.rooms[i].1.rank->0.black
            &&& exists|k: int|
                0 <= k < old(s)@.rooms[i].1.users.len() && (
                #[trigger] old(s)@.rooms[i].1.users[k]).1.user_id
                    == old(s)@.rooms[i].1.rank->0.white
        },
        final(s)@.rooms[i].1.game matches Some(after) ==> exists|
            game: Game,
            advanced: (Game, Option<(Player, EndedCause)>),
        | #[trigger]
            call_ensures(*advance, (game, dt), advanced) && after == advanced.0@ && (
            old(s)@.rooms[i].1.game is Some ==> old(s)@.rooms[i].1.game == Some(game@)),
{
    let m = old(s)@;
    let answers = choose|answers: Seq<Answer>|
        all_answered(old(s).rooms.raw(), dt, *start, *advance, answers) && final(s)@ == m.ticked(
            dt,
            #[trigger] answer_models(answers),
        );
    the_rules_are_asked_of_every_room(
        *old(s),
        dt,
        *start,
        *advance,
        answers,
        i,
    );
    every_room_after_a_tick(m, dt, answer_models(answers), i);
    let raw = old(s).rooms.raw()[i].1;
    assert(m.rooms[i].1 == raw@);
    if final(s)@.rooms[i].1.game is Some {
        let game = if raw.game is Some {
            raw.game->0
        } else {
            answers[i].started->0
        };
        assert(call_ensures(*advance, (game, dt), answers[i].advanced->0));
    }
}

/// A user is found in a room exactly where one of its users has that id.
pub proof fn looking_for_a_user(room: &Room, user_id: UserId, r: bool)
    requires
        call_ensures(Room::exists_user, (room, user_id), r),
    ensures
        r <==> exists|i: int|
            0 <= i < room.users@.len() && (#[trigger] room.users@[i]).1.user_id == user_id,
{
}

/// The others of a room are all its users but the one of the connection, in
/// their order.
pub proof fn listing_the_others(room: &Room, conn_id: u128, r: Vec<User>) -> (at: Seq<int>)
    requires
        call_ensures(Room::others, (room, conn_id), r),
    ensures
        lists(at, room.users@.len() as int, |i: int| room.users@[i].0 != conn_id),
        r@ == Seq::new(at.len(), |k: int| room.users@[at[k]].1),
{
    a_king_is_chosen_among_all_others(room@, conn_id)
}

/// A room that plays on holds the game as it went on, and is otherwise the same.
pub proof fn playing_on(room: &mut Room, answer: &Answer)
    requires
        call_ensures(Room::play, (room, answer), ()),
        old(room)@.admits(answer@),
    ensures
        final(room)@ == (RoomModel {
            game: match answer.advanced {
                Some(advanced) => Some(advanced.0@),
                None => None,
            },
            ..old(room)@
        }),
{
}

/// A room that finishes its game hands it back and has none; if it is ranked it
/// then has free seats and ten seconds. One without a game stays as it is.
pub proof fn finishing_in_a_room(room: &mut Room, game: Option<Game>)
    requires
        call_ensures(Room::finish, (room,), game),
    ensures
        game is Some <==> old(room).game is Some,
        game matches Some(g) ==> g@ == old(room).game->0@,
        old(room).game is None ==> final(room)@ == old(room)@,
        old(room).game is Some ==> final(room)@ == (RoomModel {
            game: None,
            rank: match old(room).rank {
                Some(_) => Some(
                    Rank { black: UserId::Empty, white: UserId::Empty, time: 10000 },
                ),
                None => None,
            },
            ..old(room)@
        }),
{
}

/// An event goes to its connection exactly where that has a stream; nothing
/// else changes.
pub proof fn dispatching(s: &mut Server, conn_id: u128, event: &Event)
    requires
        call_ensures(Server::dispatch, (s, conn_id, event), ()),
    ensures
        !old(s)@.streams.contains(conn_id) ==> final(s)@ == old(s)@,
        old(s)@.streams.contains(conn_id) ==> final(s)@ == (ServerModel {
            outbox: old(s)@.outbox.push(ActionModel::Send { conn_id, event: event@ }),
            ..old(s)@
        }),
{
}

/// A connection is cut exactly where it has a stream; nothing else changes.
pub proof fn kicking(s: &mut Server, conn_id: u128)
    requires
        call_ensures(Server::kick, (s, conn_id), ()),
    ensures
        !old(s)@.streams.contains(conn_id) ==> final(s)@ == old(s)@,
        old(s)@.streams.contains(conn_id) ==> final(s)@ == (ServerModel {
            outbox: old(s)@.outbox.push(ActionModel::Shutdown { conn_id }),
            ..old(s)@
        }),
{
}

/// A command that failed is answered to its sender, where that has a stream,
/// and the sender is cut after that exactly where the error demands it.
pub proof fn refusing_a_command(s: &mut Server, conn_id: u128, err: &Error, message: String)
    requires
        call_ensures(Server::command_failed, (s, conn_id, err, message), ()),
    ensures
        ({
            let told = ActionModel::Send {
                conn_id,
                event: EventModel::Error { message: message@ },
            };
            &&& !old(s)@.streams.contains(conn_id) ==> final(s)@ == old(s)@
            &&& old(s)@.streams.contains(conn_id) && err !is ShouldTerminate ==> final(s)@ == (
            ServerModel { outbox: old(s)@.outbox.push(told), ..old(s)@ })
            &&& old(s)@.streams.contains(conn_id) && err is ShouldTerminate ==> final(s)@ == (
            ServerModel {
                outbox: old(s)@.outbox.push(told).push(ActionModel::Shutdown { conn_id }),
                ..old(s)@
            })
        }),
{
}

/// A result goes out once, as it is, on the channel of its id.
pub proof fn sending_a_result(s: &mut Server, id: &str, result: TaskResult)
    requires
        call_ensures(Server::send_result, (s, id, result), ()),
    ensures
        final(s)@ == (ServerModel {
            outbox: old(s)@.outbox.push(
                ActionModel::PushResult { channel: "task_result_chan_"@ + id@, result: result@ },
            ),
            ..old(s)@
        }),
{
}

/// What a task came to goes out once, on the channel of its id: the value and
/// no error, or the message of the error and an empty value.
pub proof fn reporting_a_task(s: &mut Server, id: &str, outcome: Result<String, String>)
    requires
        call_ensures(Server::task_done, (s, id, outcome), ()),
    ensures
        final(s)@ == (ServerModel {
            outbox: old(s)@.outbox.push(
                ActionModel::PushResult {
                    channel: "task_result_chan_"@ + id@,
                    result: match outcome {
                        Ok(value) => ResultModel { error: None, value: value@ },
                        Err(message) => ResultModel {
                            error: Some(message@),
                            value: Seq::empty(),
                        },
                    },
                },
            ),
            ..old(s)@
        }),
{
}

/// A server announces itself under its name.
pub proof fn announcing(s: &mut Server)
    requires
        call_ensures(Server::update_discover, (s,), ()),
    ensures
        final(s)@ == (ServerModel {
            outbox: old(s)@.outbox.push(
                ActionModel::Announce { hash: "game_server_hash"@, field: old(s)@.name },
            ),
            ..old(s)@
        }),
{
}

/// What is to be done is handed out whole and in order, and is then forgotten;
/// nothing else changes.
pub proof fn taking_what_is_to_be_done(s: &mut Server, todo: Vec<Action>, i: int)
    requires
        call_ensures(Server::take_outbox, (s,), todo),
    ensures
        todo@.len() == old(s)@.outbox.len(),
        0 <= i < todo@.len() ==> todo@[i]@ == old(s)@.outbox[i],
        final(s)@ == (ServerModel { outbox: Seq::empty(), ..old(s)@ }),
{
    assert(actions(todo@).len() == todo@.len());
    if 0 <= i < todo@.len() {
        assert(actions(todo@)[i] == todo@[i]@);
    }
}

/// Deleting a room leaves exactly the rooms that have neither its key nor the
/// key of an invite to it, as they were, and changes nothing else.
pub proof fn deleting_a_room(s: &mut Server, room_id: &str) -> (left: Seq<int>)
    requires
        call_ensures(Server::delete_room, (s, room_id), ()),
        old(s)@.wf(),
    ensures
        ({
            let m = old(s)@;
            lists(
                left,
                m.rooms.len() as int,
                |i: int|
                    m.rooms[i].0 != room_id@ && forall|k: int|
                        0 <= k < m.invites.len() && (#[trigger] m.invites[k]).1.room_id == room_id@
                            ==> m.invites[k].0 != m.rooms[i].0,
            )
        }),
        final(s)@ == (ServerModel { rooms: entries(old(s)@.rooms, left), ..old(s)@ }),
{
    let m = old(s)@;
    let id = room_id@;
    let left = deleting_leaves_all_other_rooms(m, id);
    let p = |i: int|
        m.rooms[i].0 != id && forall|k: int|
            0 <= k < m.invites.len() && (#[trigger] m.invites[k]).1.room_id == id
                ==> m.invites[k].0 != m.rooms[i].0;
    let q = |i: int|
        m.rooms[i].0 != room_id@ && forall|k: int|
            0 <= k < m.invites.len() && (#[trigger] m.invites[k]).1.room_id == room_id@
                ==> m.invites[k].0 != m.rooms[i].0;
    assert forall|i: int| 0 <= i < m.rooms.len() implies #[trigger] q(i) == p(i) by {}
    lemma_lists_same(left, m.rooms.len() as int, p, q);
    left
}

/// Destroying a room cuts each of its users that has a stream once, in the
/// order of the users, and does nothing else.
pub proof fn destroying_a_room(s: &mut Server, room_id: &str, i: int) -> (to: Seq<int>)
    requires
        call_ensures(Server::destroy_room, (s, room_id), ()),
        old(s)@.wf(),
        0 <= i < old(s)@.rooms.len(),
        old(s)@.rooms[i].0 == room_id@,
    ensures
        lists(
            to,
            old(s)@.rooms[i].1.users.len() as int,
            |k: int| old(s)@.streams.contains(old(s)@.rooms[i].1.users[k].1.conn_id),
        ),
        final(s)@ == (ServerModel {
            outbox: old(s)@.outbox + Seq::new(
                to.len(),
                |k: int|
                    ActionModel::Shutdown {
                        conn_id: old(s)@.rooms[i].1.users[to[k]].1.conn_id,
                    },
            ),
            ..old(s)@
        }),
{
    destroying_is_one_cut_per_user(old(s)@, i)
}

/// Destroying a room that is not known does nothing.
pub proof fn destroying_no_room(s: &mut Server, room_id: &str)
    requires
        call_ensures(Server::destroy_room, (s, room_id), ()),
        old(s)@.wf(),
        forall|i: int| 0 <= i < old(s)@.rooms.len() ==> (#[trigger] old(s)@.rooms[i]).0 != room_id@,
    ensures
        final(s)@ == old(s)@,
{
    destroying_nothing_does_nothing(old(s)@, room_id@);
}

/// Closing a connection with a given king does as the model does: it succeeds
/// exactly where the connection is in a room, and otherwise does nothing.
pub proof fn closing_with_a_king(s: &mut Server, conn_id: u128, king: UserId, r: Result<(), Error>)
    requires
        call_ensures(Server::close_with, (s, conn_id, king), r),
        old(s)@.wf(),
    ensures
        final(s)@ == old(s)@.closed(conn_id, king),
        r is Ok <==> {
            &&& old(s)@.conns.contains_key(conn_id)
            &&& old(s)@.conns[conn_id].room_id is Some
            &&& exists|i: int|
                0 <= i < old(s)@.rooms.len() && (#[trigger] old(s)@.rooms[i]).0
                    == old(s)@.conns[conn_id].room_id->0
        },
        r is Err ==> (r matches Err(Error::Missing)) && final(s)@ == old(s)@,
{
}

/// Closing a connection that is in a room succeeds, and where the room loses
/// its king by that and others are there, one of these becomes king. Closing
/// any other fails and does nothing.
pub proof fn closing_a_connection(s: &mut Server, conn_id: u128, r: Result<(), Error>, i: int)
    requires
        call_ensures(Server::close, (s, conn_id), r),
        old(s)@.wf(),
    ensures
        r is Ok <==> {
            &&& old(s)@.conns.contains_key(conn_id)
            &&& old(s)@.conns[conn_id].room_id is Some
            &&& exists|i: int|
                0 <= i < old(s)@.rooms.len() && (#[trigger] old(s)@.rooms[i]).0
                    == old(s)@.conns[conn_id].room_id->0
        },
        r is Err ==> (r matches Err(Error::Missing)) && final(s)@ == old(s)@,
        old(s)@.conns.contains_key(conn_id) && 0 <= i < old(s)@.rooms.len()
            && old(s)@.conns[conn_id].room_id == Some(old(s)@.rooms[i].0) ==> exists|king: UserId|
            {
                &&& final(s)@ == #[trigger] old(s)@.closed(conn_id, king)
                &&& old(s)@.conns[conn_id].user_id == old(s)@.rooms[i].1.conf.king && (exists|
                    k: int,
                |
                    0 <= k < old(s)@.rooms[i].1.users.len() && (
                    #[trigger] old(s)@.rooms[i].1.users[k]).0 != conn_id) ==> exists|k: int|
                    0 <= k < old(s)@.rooms[i].1.users.len() && (
                    #[trigger] old(s)@.rooms[i].1.users[k]).0 != conn_id
                        && old(s)@.rooms[i].1.users[k].1.user_id == king
            },
{
    let m = old(s)@;
    let k = choose|king: UserId|
        {
            &&& final(s)@ == #[trigger] m.closed(conn_id, king)
            &&& m.in_room(conn_id) && m.loses_king(conn_id) ==> m.room_of(conn_id).stays(
                conn_id,
                king,
            )
        };
    if m.conns.contains_key(conn_id) && 0 <= i < m.rooms.len() && m.conns[conn_id].room_id == Some(
        m.rooms[i].0,
    ) {
        a_king_is_lost_with_the_kings_connection(m, conn_id, i);
        who_stays_has_another_connection(m.rooms[i].1, conn_id, k);
        assert(final(s)@ == m.closed(conn_id, k));
    }
}

/// All rooms wait, and those that had no time left are named.
pub proof fn waiting_of_all(s: &mut Server, dt: usize, closing: Vec<String>)
    requires
        call_ensures(Server::wait_all, (s, dt), closing),
        old(s)@.wf(),
        old(s)@.waits_fit(dt),
    ensures
        final(s)@ == old(s)@.all_waited(dt),
        texts(closing@) == rooms_closing(old(s)@.rooms),
{
}

/// The rules of the game are asked of every room, each for its own.
pub proof fn asking_of_all<S, A>(
    s: &Server,
    dt: usize,
    start: &S,
    advance: &A,
    answers: Vec<Answer>,
    i: int,
) where S: Fn(&Room) -> Option<Game>, A: Fn(Game, usize) -> (Game, Option<(Player, EndedCause)>)
    requires
        call_ensures(Server::ask_all::<S, A>, (s, dt, start, advance), answers),
        call_requires(Server::ask_all::<S, A>, (s, dt, start, advance)),
        0 <= i < s@.rooms.len(),
    ensures
        answers@.len() == s@.rooms.len(),
        answered(s.rooms.raw()[i].1, dt, *start, *advance, answers@[i]),
{
    assert(answer_models(answers@).len() == answers@.len());
}

/// All games go on, and the rooms that are named are destroyed.
pub proof fn going_on(s: &mut Server, answers: &Vec<Answer>, closing: &Vec<String>)
    requires
        call_ensures(Server::go_on, (s, answers, closing), ()),
        call_requires(Server::go_on, (s, answers, closing)),
    ensures
        final(s)@ == old(s)@.went_on(answer_models(answers@), texts(closing@)),
{
}

/// A tick with given answers is the tick of its model.
pub proof fn ticking_with_answers(s: &mut Server, dt: usize, answers: &Vec<Answer>)
    requires
        call_ensures(Server::time_updated_with, (s, dt, answers), ()),
        call_requires(Server::time_updated_with, (s, dt, answers)),
    ensures
        final(s)@ == old(s)@.ticked(dt, answer_models(answers@)),
{
}

/// A server is made on the task store of an address exactly where that is one,
/// with its names and nobody on it.
pub proof fn connecting_to_a_store(
    addr: &str,
    name: &str,
    real_addr: &str,
    redis_addr: &str,
    r: Result<Server, Error>,
)
    requires
        call_ensures(Server::connect, (addr, name, real_addr, redis_addr), r),
    ensures
        r is Ok <==> !hostless(redis_addr@) && for_redis(redis_addr@) && !overlong(redis_addr@)
            && redis_open(redis_addr@) is Some,
        r is Err ==> r matches Err(Error::Redis),
        r matches Ok(s) ==> s@ == ServerModel::empty(
            addr@,
            name@,
            real_addr@,
            redis_open(redis_addr@)->0,
        ),
{
}

/// A new server is the empty one on the task store of its address.
pub proof fn making_a_server(
    addr: &str,
    name: &str,
    real_addr: &str,
    redis_addr: &str,
    r: Server,
)
    requires
        call_ensures(Server::new, (addr, name, real_addr, redis_addr), r),
        call_requires(Server::new, (addr, name, real_addr, redis_addr)),
    ensures
        r@ == ServerModel::empty(addr@, name@, real_addr@, redis_open(redis_addr@)->0),
{
}

/// A server on a given task store is the empty one on it.
pub proof fn making_a_server_on_a_store(
    addr: &str,
    name: &str,
    real_addr: &str,
    client: redis::Client,
    r: Server,
)
    requires
        call_ensures(Server::with_client, (addr, name, real_addr, client), r),
    ensures
        r@ == ServerModel::empty(addr@, name@, real_addr@, client),
{
}

/// The room of a connection is found under the id that the connection names,
/// and what is made of it is what the server then has there; without an id that
/// is not permitted, and without such a room it is missing, and nothing changes.
pub proof fn changing_the_room_of_a_connection(
    s: &mut Server,
    conn: &Connection,
    r: Result<&mut Room, Error>,
    i: int,
)
    requires
        call_ensures(Server::get_room_mut, (s, conn), r),
        old(s)@.wf(),
    ensures
        conn.room_id is None ==> (r matches Err(Error::Permission)) && final(s)@ == old(s)@,
        conn.room_id is Some && (forall|j: int|
            0 <= j < old(s)@.rooms.len() ==> (#[trigger] old(s)@.rooms[j]).0 != conn.room_id->0@)
            ==> (r matches Err(Error::Missing)) && final(s)@ == old(s)@,
        conn.room_id is Some && 0 <= i < old(s)@.rooms.len() && old(s)@.rooms[i].0
            == conn.room_id->0@ ==> {
            &&& r matches Ok(room)
            &&& room@ == old(s)@.rooms[i].1
            &&& final(s)@ == (ServerModel {
                rooms: old(s)@.rooms.update(i, (old(s)@.rooms[i].0, final(room)@)),
                ..old(s)@
            })
        },
{
    if 0 <= i < old(s)@.rooms.len() {
        lemma_at(old(s)@.rooms, i);
    }
}

/// An address is found to lack a host exactly where it does.
pub proof fn testing_for_a_host(address: &str, r: bool)
    requires
        call_ensures(is_hostless, (address,), r),
    ensures
        r == hostless(address@),
{
}

/// An address is found to be one of the task store exactly where it is.
pub proof fn testing_for_the_scheme(address: &str, r: bool)
    requires
        call_ensures(is_for_redis, (address,), r),
    ensures
        r == for_redis(address@),
{
}

/// An address is found to be too long exactly where it is.
pub proof fn testing_for_the_length(address: &str, r: bool)
    requires
        call_ensures(is_overlong, (address,), r),
    ensures
        r == overlong(address@),
{
}

/// A task goes to the lobby as it is, under the id that is given, and its
/// result is awaited for five seconds on the channel that the id names.
pub proof fn requesting_a_task_under_an_id(s: &Server, id: String, task: Task, call: TaskCall)
    requires
        call_ensures(Server::request_task_with, (s, id, task), call),
    ensures
        call.queue@ == "task_lobby_queue"@,
        call.request.id@ == id@,
        call.request.task@ == task@,
        call.channel@ == "task_result_chan_"@ + id@,
        call.timeout == 5,
{
    assert(call@.queue == call.queue@);
}

/// A task goes to the lobby as it is, under a random id, and its result is
/// awaited for five seconds on the channel that the id names.
pub proof fn requesting_a_task(s: &Server, task: Task, call: TaskCall)
    requires
        call_ensures(Server::request_task, (s, task), call),
    ensures
        call.queue@ == "task_lobby_queue"@,
        exists|k: u128| is_random_id(k) && call.request.id@ == #[trigger] hyphenated(k),
        call.request.task@ == task@,
        call.channel@ == "task_result_chan_"@ + call.request.id@,
        call.timeout == 5,
{
    assert(call@.queue == call.queue@);
}

/// The queue of a server bears its name.
pub proof fn naming_the_queue(s: &Server, queue: String)
    requires
        call_ensures(Server::task_queue, (s,), queue),
    ensures
        queue@ == "task_game_queue_"@ + s@.name,
{
}

/// A queue is named after its server.
pub proof fn naming_a_queue(server: &str, queue: String)
    requires
        call_ensures(redis_game_queue, (server,), queue),
    ensures
        queue@ == "task_game_queue_"@ + server@,
{
}

/// A channel is named after its id.
pub proof fn naming_a_channel(id: &str, channel: String)
    requires
        call_ensures(redis_result_channel, (id,), channel),
    ensures
        channel@ == "task_result_chan_"@ + id@,
{
}

/// The item of a reply is its second entry, and is missing where there is none.
pub proof fn reading_a_reply(reply: &Vec<String>, r: Result<&String, Error>)
    requires
        call_ensures(popped_item, (reply,), r),
    ensures
        reply@.len() > 1 ==> r is Ok && r->Ok_0@ == reply@[1]@,
        reply@.len() <= 1 ==> r matches Err(Error::Missing),
{
}

/// An item that holds a task makes the event of that task, any other none.
pub proof fn reading_a_task(parsed: Option<TaskRequest>, r: Option<ServerEvent>)
    requires
        call_ensures(task_event, (parsed,), r),
    ensures
        parsed is None ==> r is None,
        parsed matches Some(task_request) ==> r == Some(ServerEvent::TaskRequest { task_request }),
{
}

/// A result with an error fails with its message, whatever its value; one
/// without gives its value.
pub proof fn reading_a_result(result: TaskResult, r: Result<String, Error>)
    requires
        call_ensures(task_outcome, (result,), r),
    ensures
        result.error is None ==> r is Ok && r->Ok_0@ == result.value@,
        result.error matches Some(message) ==> r is Err && (r->Err_0 matches Error::TaskError(m)
            && m@ == message@),
{
}

/// A read without bytes stops a stream; any other hands on its line without the
/// null characters at its ends, and with nothing else taken away.
pub proof fn reading_a_line(read: Option<usize>, msg: &str, r: StreamStep) -> (ends: (int, int))
    requires
        call_ensures(stream_step, (read, msg), r),
    ensures
        r is Stop <==> (read is None || read->0 == 0),
        r matches StreamStep::Parse { text } ==> {
            &&& 0 <= ends.0 <= ends.1 <= msg@.len()
            &&& text@ == msg@.subrange(ends.0, ends.1)
            &&& forall|i: int|
                0 <= i < msg@.len() && !(ends.0 <= i < ends.1) ==> #[trigger] msg@[i] == '\0'
            &&& text@.len() > 0 ==> text@.first() != '\0' && text@.last() != '\0'
        },
{
    trimmed_is_the_middle(msg@)
}

/// A message loses exactly the null characters at its ends.
pub proof fn trimming_a_message(msg: &str, r: String) -> (ends: (int, int))
    requires
        call_ensures(trim_nulls, (msg,), r),
    ensures
        0 <= ends.0 <= ends.1 <= msg@.len(),
        r@ == msg@.subrange(ends.0, ends.1),
        forall|i: int|
            0 <= i < msg@.len() && !(ends.0 <= i < ends.1) ==> #[trigger] msg@[i] == '\0',
        r@.len() > 0 ==> r@.first() != '\0' && r@.last() != '\0',
{
    trimmed_is_the_middle(msg@)
}

/// A line that is a command is handed on as that command of the sender; any
/// other is answered to the sender.
pub proof fn taking_a_line(conn_id: u128, parsed: Option<Command>, r: ServerEvent)
    requires
        call_ensures(line_event, (conn_id, parsed), r),
    ensures
        parsed matches Some(cmd) ==> {
            &&& r matches ServerEvent::Command { conn_id: c, cmd: d }
            &&& c == conn_id
            &&& d.json@ == cmd.json@
        },
        parsed is None ==> {
            &&& r matches ServerEvent::Dispatch { conn_id: c, event: Event::Error { message } }
            &&& c == conn_id
            &&& message@ == "json format error"@
        },
{
    match r {
        ServerEvent::Command { conn_id: c, cmd: d } => {
            assert(r@ == (ServerEventModel::Command { conn_id: c, cmd: d@ }));
        },
        ServerEvent::Dispatch { conn_id: c, event: e } => {
            assert(r@ == (ServerEventModel::Dispatch { conn_id: c, event: e@ }));
        },
        _ => {},
    }
}

/// The stream of a connection opens and closes that connection.
pub proof fn taking_a_stream(conn_id: u128, r: (ServerEvent, ServerEvent))
    requires
        call_ensures(stream_of, (conn_id,), r),
    ensures
        r.0 == (ServerEvent::Connect { conn_id }),
        r.1 == (ServerEvent::Close { conn_id }),
{
}

/// A new stream opens and closes one connection, of a random id.
pub proof fn taking_a_new_stream(r: (ServerEvent, u128, ServerEvent))
    requires
        call_ensures(handle_stream, (), r),
    ensures
        r.0 == (ServerEvent::Connect { conn_id: r.1 }),
        r.2 == (ServerEvent::Close { conn_id: r.1 }),
        is_random_id(r.1),
{
}

/// An event is written as it is, with one line break behind it.
pub proof fn writing_a_line(json: String, r: String)
    requires
        call_ensures(event_line, (json,), r),
    ensures
        r@ == json@ + seq!['\n'],
{
    reveal_strlit("\n");
    assert("\n"@ =~= seq!['\n']);
}

/// A table that is made is empty.
pub proof fn making_a_table<K: TableKey, V: View>(r: Table<K, V>)
    requires
        call_ensures(Table::<K, V>::new, (), r),
    ensures
        r@.len() == 0,
{
}

/// A key is found in a table exactly where an entry has it, with the place and
/// the value of that entry.
pub proof fn looking_up_a_key<K: TableKey, V: View>(
    t: &Table<K, V>,
    key: &K,
    place: Option<usize>,
    value: Option<&V>,
)
    requires
        call_ensures(Table::<K, V>::position, (t, key), place),
        call_ensures(Table::<K, V>::get, (t, key), value),
        distinct(t@),
    ensures
        place is Some <==> exists|i: int| 0 <= i < t@.len() && (#[trigger] t@[i]).0 == key@,
        place matches Some(i) ==> i < t@.len() && t@[i as int].0 == key@,
        value is Some <==> place is Some,
        value matches Some(v) ==> v@ == t@[place->0 as int].1,
{
    if place is Some {
        lemma_at(t@, place->0 as int);
    }
}

/// A value that is put into a table takes the place of the old value of its
/// key, or the end where there was none; every other entry stays.
pub proof fn putting_into_a_table<K: TableKey, V: View>(
    t: &mut Table<K, V>,
    key: K,
    value: V,
    i: int,
)
    requires
        call_ensures(Table::<K, V>::insert, (t, key, value), ()),
        distinct(old(t)@),
    ensures
        0 <= i < old(t)@.len() && old(t)@[i].0 == key@ ==> final(t)@ == old(t)@.update(
            i,
            (key@, value@),
        ),
        (forall|j: int| 0 <= j < old(t)@.len() ==> (#[trigger] old(t)@[j]).0 != key@) ==> final(t)@
            == old(t)@ + seq![(key@, value@)],
{
    putting_changes_one_entry(old(t)@, key@, value@, i);
}

/// A key that is taken out of a table takes its entry along and no other.
pub proof fn taking_out_of_a_table<K: TableKey, V: View>(
    t: &mut Table<K, V>,
    key: &K,
) -> (left: Seq<int>)
    requires
        call_ensures(Table::<K, V>::remove, (t, key), ()),
        distinct(old(t)@),
    ensures
        lists(left, old(t)@.len() as int, |i: int| old(t)@[i].0 != key@),
        final(t)@ == entries(old(t)@, left),
{
    taking_out_spares_all_other_keys(old(t)@, key@)
}

/// Time can pass where no key is double, no waiting time leaves the numbers of
/// the machine, and no game can begin in a room that is not known by its id.
pub proof fn time_can_pass<S, A>(s: &mut Server, dt: usize, start: &S, advance: &A) where
    S: Fn(&Room) -> Option<Game>,
    A: Fn(Game, usize) -> (Game, Option<(Player, EndedCause)>),

    requires
        old(s)@.wf(),
        forall|i: int|
            0 <= i < old(s)@.rooms.len() && (#[trigger] old(s)@.rooms[i]).1.rank is Some ==> {
                let time = old(s)@.rooms[i].1.rank->0.time;
                time <= 0 || isize::MIN <= time - (dt as isize) <= isize::MAX
            },
        forall|i: int, game: Game|
            0 <= i < old(s)@.rooms.len() && #[trigger] call_ensures(
                *start,
                (&waited_room(old(s).rooms.raw()[i].1, dt),),
                Some(game),
            ) ==> exists|j: int|
                0 <= j < old(s)@.rooms.len() && (#[trigger] old(s)@.rooms[j]).0
                    == old(s)@.rooms[i].1.id,
        forall|room: Room| #[trigger] call_requires(*start, (&room,)),
        forall|game: Game| #[trigger] call_requires(*advance, (game, dt)),
    ensures
        call_requires(Server::time_updated::<S, A>, (s, dt, start, advance)),
        call_requires(
            Server::handle_event::<S, A>,
            (s, ServerEvent::TimeUpdated { dt }, start, advance),
        ),
{
    assert forall|i: int| 0 <= i < old(s)@.rooms.len() implies (
    #[trigger] old(s)@.rooms[i]).1.wait_fits(dt) by {}
    assert(old(s).knows_starts(dt, *start));
}

/// Any other event can be handled where no key is double, a command only of a
/// connection that is known.
pub proof fn events_can_be_handled<S, A>(
    s: &mut Server,
    event: ServerEvent,
    start: &S,
    advance: &A,
) where S: Fn(&Room) -> Option<Game>, A: Fn(Game, usize) -> (Game, Option<(Player, EndedCause)>)
    requires
        old(s)@.wf(),
        event !is TimeUpdated,
        event matches ServerEvent::Command { conn_id, cmd } ==> old(s)@.conns.contains_key(conn_id),
    ensures
        call_requires(Server::handle_event::<S, A>, (s, event, start, advance)),
{
}

/// Games can be completed and connections closed on every server without double
/// keys; a room can be told only where it is known.
pub proof fn games_can_end(
    s: &mut Server,
    room_id: &str,
    loser: Player,
    cause: &EndedCause,
    conn_id: u128,
    event: &Event,
)
    requires
        old(s)@.wf(),
    ensures
        call_requires(Server::complete_game, (s, room_id, loser, cause)),
        call_requires(Server::close, (s, conn_id)),
        call_requires(Server::destroy_room, (s, room_id)),
        call_requires(Server::delete_room, (s, room_id)),
        (exists|i: int|
            0 <= i < old(s)@.rooms.len() && (#[trigger] old(s)@.rooms[i]).0 == room_id@)
            ==> call_requires(Server::broadcast, (s, room_id, event)),
{
}

} // verus!
