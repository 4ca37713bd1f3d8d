//! What the server asks its surroundings to do, and what they tell it.

use vstd::prelude::*;

use crate::model::{
    Command, CompleteGameResult, Connection, ConnectionModel, EndedCause, Event, EventModel,
    Player, RequestModel, ResultModel, Task, TaskModel, TaskRequest, TaskResult, UserId,
};

verus! {

/// Something that happened. The socket of a new connection stays with whoever
/// accepted it.
pub enum ServerEvent {
    Connect { conn_id: u128 },
    Dispatch { conn_id: u128, event: Event },
    Close { conn_id: u128 },
    DiscoverUpdated,
    TimeUpdated { dt: usize },
    Command { conn_id: u128, cmd: Command },
    TaskRequest { task_request: TaskRequest },
}

pub enum ServerEventModel {
    Connect { conn_id: u128 },
    Dispatch { conn_id: u128, event: EventModel },
    Close { conn_id: u128 },
    DiscoverUpdated,
    TimeUpdated { dt: usize },
    Command { conn_id: u128, cmd: Seq<char> },
    TaskRequest { task_request: RequestModel },
}

impl View for ServerEvent {
    type V = ServerEventModel;

    open spec fn view(&self) -> ServerEventModel {
        match *self {
            ServerEvent::Connect { conn_id } => ServerEventModel::Connect { conn_id },
            ServerEvent::Dispatch { conn_id, event } => ServerEventModel::Dispatch {
                conn_id,
                event: event@,
            },
            ServerEvent::Close { conn_id } => ServerEventModel::Close { conn_id },
            ServerEvent::DiscoverUpdated => ServerEventModel::DiscoverUpdated,
            ServerEvent::TimeUpdated { dt } => ServerEventModel::TimeUpdated { dt },
            ServerEvent::Command { conn_id, cmd } => ServerEventModel::Command {
                conn_id,
                cmd: cmd@,
            },
            ServerEvent::TaskRequest { task_request } => ServerEventModel::TaskRequest {
                task_request: task_request@,
            },
        }
    }
}

/// What is left to tell a room when the lobby has booked the end of its game.
pub struct Ending {
    pub room_id: String,
    pub loser: UserId,
    pub player: Player,
    pub cause: EndedCause,
}

pub struct EndingModel {
    pub room_id: Seq<char>,
    pub loser: UserId,
    pub player: Player,
    pub cause: Seq<char>,
}

impl View for Ending {
    type V = EndingModel;

    open spec fn view(&self) -> EndingModel {
        EndingModel {
            room_id: self.room_id@,
            loser: self.loser,
            player: self.player,
            cause: self.cause@,
        }
    }
}

/// What the lobby made of the end of a game.
pub enum GameReply {
    /// No reply came, or it reported an error.
    Failed,
    /// The reply does not say how the ratings change.
    Malformed,
    Done(CompleteGameResult),
}

/// Something that the server wants done outside of it.
pub enum Action {
    /// Write an event to the socket of a connection.
    Send { conn_id: u128, event: Event },
    /// Shut the socket of a connection down.
    Shutdown { conn_id: u128 },
    /// Ask the lobby to book the end of a game, then hand the reply back.
    CompleteGame { task: Task, ending: Ending },
    /// Set a field of a hash to the description of this server.
    Announce { hash: String, field: String },
    /// Carry out a command, then hand a failure back for whoever sent it.
    RunCommand { conn_id: u128, conn: Connection, cmd: Command },
    /// Carry out a task, then hand its outcome back.
    RunTask { request: TaskRequest },
    /// Push the result of a task on a channel.
    PushResult { channel: String, result: TaskResult },
}

pub enum ActionModel {
    Send { conn_id: u128, event: EventModel },
    Shutdown { conn_id: u128 },
    CompleteGame { task: TaskModel, ending: EndingModel },
    Announce { hash: Seq<char>, field: Seq<char> },
    RunCommand { conn_id: u128, conn: ConnectionModel, cmd: Seq<char> },
    RunTask { request: RequestModel },
    PushResult { channel: Seq<char>, result: ResultModel },
}

impl View for Action {
    type V = ActionModel;

    open spec fn view(&self) -> ActionModel {
        match *self {
            Action::Send { conn_id, event } => ActionModel::Send { conn_id, event: event@ },
            Action::Shutdown { conn_id } => ActionModel::Shutdown { conn_id },
            Action::CompleteGame { task, ending } => ActionModel::CompleteGame {
                task: task@,
                ending: ending@,
            },
            Action::Announce { hash, field } => ActionModel::Announce { hash: hash@, field: field@ },
            Action::RunCommand { conn_id, conn, cmd } => ActionModel::RunCommand {
                conn_id,
                conn: conn@,
                cmd: cmd@,
            },
            Action::RunTask { request } => ActionModel::RunTask { request: request@ },
            Action::PushResult { channel, result } => ActionModel::PushResult {
                channel: channel@,
                result: result@,
            },
        }
    }
}

/// The models of a list of actions.
pub open spec fn actions(s: Seq<Action>) -> Seq<ActionModel> {
    s.map_values(|a: Action| a@)
}

} // verus!
