//! The models of values say of each value what it holds, and nothing else.

use vstd::prelude::*;

use crate::action::{actions, Action, ActionModel, Ending, ServerEvent, ServerEventModel};
use crate::model::{
    text, Command, Connection, EndedCause, Event, EventModel, Game, Invite, Player, RoomConf, Task,
    TaskModel, TaskRequest, TaskResult, User,
};
use crate::room::{Answer, Room};
use crate::server::{
    answer_models, lost_models, outcome_result, started_models, texts, Server,
};
use crate::table::{Table, TableKey};
use crate::task::TaskCall;

verus! {

/// The model of an optional string is its text, if it is there.
pub proof fn a_text_is_there_when_its_string_is(o: Option<String>)
    ensures
        o is Some <==> text(o) is Some,
        o matches Some(s) ==> text(o) == Some(s@),
{
}

/// The model of a game has its players, its texts and its position.
pub proof fn a_game_is_modelled_as_it_is(game: Game)
    ensures
        game@.black == game.black,
        game@.white == game.white,
        game@.map == game.map@,
        game@.rule == game.rule@,
        game@.history == game.history@,
        game@.position == game.position@,
{
}

/// The models of a room's settings, of an invite, of a connection, of a user
/// and of a cause have what those have.
pub proof fn small_values_are_modelled_as_they_are(
    conf: RoomConf,
    invite: Invite,
    conn: Connection,
    user: User,
    cause: EndedCause,
    cmd: Command,
)
    ensures
        conf@.king == conf.king,
        conf@.black == conf.black,
        conf@.white == conf.white,
        conf@.details == conf.details@,
        invite@.user_id == invite.user_id,
        invite@.room_id == invite.room_id@,
        conn@.conn_id == conn.conn_id,
        conn@.user_id == conn.user_id,
        conn.room_id is None ==> conn@.room_id is None,
        conn.room_id matches Some(id) ==> conn@.room_id == Some(id@),
        user@ == user,
        cause@ == cause.name@,
        cmd@ == cmd.json@,
{
}

/// The model of a room has its id, its users, its settings, its game and its
/// rank.
pub proof fn a_room_is_modelled_as_it_is(room: Room)
    ensures
        room@.id == room.id@,
        room@.users == room.users@,
        room@.conf == room.conf@,
        room.game is None ==> room@.game is None,
        room.game matches Some(game) ==> room@.game == Some(game@),
        room@.rank == room.rank,
{
}

/// The model of an answer of the rules of the game has the game that began and
/// the game as it went on, with its loser and the cause, each if it is there.
pub proof fn an_answer_is_modelled_as_it_is(answer: Answer)
    ensures
        answer.started is None ==> answer@.started is None,
        answer.started matches Some(game) ==> answer@.started == Some(game@),
        answer.advanced is None ==> answer@.advanced is None,
        answer.advanced matches Some(advanced) ==> {
            &&& answer@.advanced is Some
            &&& (answer@.advanced->0).0 == advanced.0@
            &&& advanced.1 is None ==> (answer@.advanced->0).1 is None
            &&& advanced.1 matches Some(lost) ==> (answer@.advanced->0).1 == Some((lost.0, lost.1@))
        },
{
}

/// The model of what a client is told says the same as what the client is told.
pub proof fn an_event_is_modelled_as_it_is(event: Event)
    ensures
        match event {
            Event::Error { message } => event@ == (EventModel::Error { message: message@ }),
            Event::Started { game } => event@ == (EventModel::Started { game: game@ }),
            Event::Ended { loser, winner_delta, loser_delta, player, cause } => event@ == (
            EventModel::Ended { loser, winner_delta, loser_delta, player, cause: cause.name@ }),
            Event::Left { user } => event@ == (EventModel::Left { user }),
            Event::Confed { conf } => event@ == (EventModel::Confed { conf: conf@ }),
            Event::Other { json } => event@ == (EventModel::Other { json: json@ }),
        },
{
}

/// The model of a task, of a request and of a result has what those have.
pub proof fn tasks_are_modelled_as_they_are(
    task: Task,
    request: TaskRequest,
    result: TaskResult,
    call: TaskCall,
)
    ensures
        match task {
            Task::CompleteGame { black, white, rank, loser, cause, map, game_rule, moves } => task@
                == (TaskModel::CompleteGame {
                black,
                white,
                rank,
                loser,
                cause: cause.name@,
                map: map@,
                game_rule: game_rule@,
                moves: moves@,
            }),
            Task::Other { json } => task@ == (TaskModel::Other { json: json@ }),
        },
        request@.id == request.id@,
        request@.task == request.task@,
        result.error is None ==> result@.error is None,
        result.error matches Some(message) ==> result@.error == Some(message@),
        result@.value == result.value@,
        call@.queue == call.queue@,
        call@.request == call.request@,
        call@.channel == call.channel@,
        call@.timeout == call.timeout,
{
}

/// The model of something that happened says the same.
pub proof fn what_happened_is_modelled_as_it_is(event: ServerEvent)
    ensures
        match event {
            ServerEvent::Connect { conn_id } => event@ == (ServerEventModel::Connect { conn_id }),
            ServerEvent::Dispatch { conn_id, event: e } => event@ == (ServerEventModel::Dispatch {
                conn_id,
                event: e@,
            }),
            ServerEvent::Close { conn_id } => event@ == (ServerEventModel::Close { conn_id }),
            ServerEvent::DiscoverUpdated => event@ == ServerEventModel::DiscoverUpdated,
            ServerEvent::TimeUpdated { dt } => event@ == (ServerEventModel::TimeUpdated { dt }),
            ServerEvent::Command { conn_id, cmd } => event@ == (ServerEventModel::Command {
                conn_id,
                cmd: cmd.json@,
            }),
            ServerEvent::TaskRequest { task_request } => event@ == (ServerEventModel::TaskRequest {
                task_request: task_request@,
            }),
        },
{
}

/// The model of an action, and of the ending that it may carry, says the same.
pub proof fn an_action_is_modelled_as_it_is(action: Action, ending: Ending)
    ensures
        match action {
            Action::Send { conn_id, event } => action@ == (ActionModel::Send {
                conn_id,
                event: event@,
            }),
            Action::Shutdown { conn_id } => action@ == (ActionModel::Shutdown { conn_id }),
            Action::CompleteGame { task, ending } => action@ == (ActionModel::CompleteGame {
                task: task@,
                ending: ending@,
            }),
            Action::Announce { hash, field } => action@ == (ActionModel::Announce {
                hash: hash@,
                field: field@,
            }),
            Action::RunCommand { conn_id, conn, cmd } => action@ == (ActionModel::RunCommand {
                conn_id,
                conn: conn@,
                cmd: cmd.json@,
            }),
            Action::RunTask { request } => action@ == (ActionModel::RunTask { request: request@ }),
            Action::PushResult { channel, result } => action@ == (ActionModel::PushResult {
                channel: channel@,
                result: result@,
            }),
        },
        ending@.room_id == ending.room_id@,
        ending@.loser == ending.loser,
        ending@.player == ending.player,
        ending@.cause == ending.cause.name@,
{
}

/// Lists are modelled entry by entry, in order.
pub proof fn lists_are_modelled_entry_by_entry(
    a: Seq<Action>,
    b: Seq<Answer>,
    c: Seq<(String, Game)>,
    d: Seq<(String, Player, EndedCause)>,
    e: Seq<String>,
    i: int,
)
    ensures
        actions(a).len() == a.len(),
        0 <= i < a.len() ==> actions(a)[i] == a[i]@,
        answer_models(b).len() == b.len(),
        0 <= i < b.len() ==> answer_models(b)[i] == b[i]@,
        started_models(c).len() == c.len(),
        0 <= i < c.len() ==> started_models(c)[i] == (c[i].0@, c[i].1@),
        lost_models(d).len() == d.len(),
        0 <= i < d.len() ==> lost_models(d)[i] == (d[i].0@, d[i].1, d[i].2.name@),
        texts(e).len() == e.len(),
        0 <= i < e.len() ==> texts(e)[i] == e[i]@,
{
}

/// A table is modelled entry by entry, in order.
pub proof fn a_table_is_modelled_entry_by_entry<K: TableKey, V: View>(t: Table<K, V>, i: int)
    ensures
        t@.len() == t.raw().len(),
        0 <= i < t@.len() ==> t@[i] == (t.raw()[i].0@, t.raw()[i].1@),
{
}

/// The model of a server has all of its parts.
pub proof fn a_server_is_modelled_as_it_is(s: Server, c: u128, i: int)
    ensures
        s@.addr == s.addr@,
        s@.real_addr == s.real_addr@,
        s@.name == s.name@,
        s@.redis == s.redis,
        s@.rooms == s.rooms@,
        s@.invites == s.invites@,
        s@.conns.contains_key(c) <==> s.conns@.contains_key(c),
        s@.conns.contains_key(c) ==> s@.conns[c] == s.conns@[c]@,
        s@.streams == s.streams@,
        s@.outbox.len() == s.outbox@.len(),
        0 <= i < s.outbox@.len() ==> s@.outbox[i] == s.outbox@[i]@,
{
}

/// The result in which an outcome is sent carries the value and no error, or
/// the message of the error and an empty value.
pub proof fn an_outcome_is_sent_as_it_is(outcome: Result<String, String>)
    ensures
        outcome matches Ok(value) ==> outcome_result(outcome).error is None && outcome_result(
            outcome,
        ).value == value@,
        outcome matches Err(message) ==> outcome_result(outcome).error == Some(message@)
            && outcome_result(outcome).value.len() == 0,
{
}

} // verus!
