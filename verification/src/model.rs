//! The values that the server keeps, receives and sends, each with its model.
//!
//! Text is modelled by the sequence of its characters. What the server passes
//! on without reading it (the position of a game, the further settings of a
//! room) is carried as text.

use vstd::prelude::*;

verus! {

/// The text of an optional string.
pub open spec fn text(o: Option<String>) -> Option<Seq<char>> {
    match o {
        Some(s) => Some(s@),
        None => None,
    }
}

/// The user that a seat or a connection stands for, if any.
#[derive(Clone, Copy, PartialEq, Eq, Structural, Debug)]
pub enum UserId {
    Empty,
    Id(u64),
}

#[derive(Clone, Copy, PartialEq, Eq, Structural, Debug)]
pub enum Player {
    Black,
    White,
}

/// A user in a room, by the connection through which the user came.
#[derive(Clone, Copy, PartialEq, Eq, Structural, Debug)]
pub struct User {
    pub conn_id: u128,
    pub user_id: UserId,
}

impl View for User {
    type V = User;

    open spec fn view(&self) -> User {
        *self
    }
}

/// The seats and the waiting time of a ranked room.
#[derive(Clone, Copy, PartialEq, Eq, Structural, Debug)]
pub struct Rank {
    pub black: UserId,
    pub white: UserId,
    /// Milliseconds left until the room is closed for want of a game.
    pub time: isize,
}

/// Why a game ended, in the words of the rules of the game.
#[derive(Debug)]
pub struct EndedCause {
    pub name: String,
}

impl View for EndedCause {
    type V = Seq<char>;

    open spec fn view(&self) -> Seq<char> {
        self.name@
    }
}

impl Clone for EndedCause {
    fn clone(&self) -> (r: Self)
        ensures
            r == *self,
    {
        EndedCause { name: self.name.clone() }
    }
}

/// A loser and the cause of the loss.
pub open spec fn loss(o: Option<(Player, EndedCause)>) -> Option<(Player, Seq<char>)> {
    match o {
        Some(l) => Some((l.0, l.1@)),
        None => None,
    }
}

/// A game that is being played.
#[derive(Debug)]
pub struct Game {
    pub black: UserId,
    pub white: UserId,
    pub map: String,
    pub rule: String,
    pub history: String,
    /// What the rules of the game keep besides: the clocks, the board.
    pub position: String,
}

pub struct GameModel {
    pub black: UserId,
    pub white: UserId,
    pub map: Seq<char>,
    pub rule: Seq<char>,
    pub history: Seq<char>,
    pub position: Seq<char>,
}

impl View for Game {
    type V = GameModel;

    open spec fn view(&self) -> GameModel {
        GameModel {
            black: self.black,
            white: self.white,
            map: self.map@,
            rule: self.rule@,
            history: self.history@,
            position: self.position@,
        }
    }
}

impl Clone for Game {
    fn clone(&self) -> (r: Self)
        ensures
            r == *self,
    {
        Game {
            black: self.black,
            white: self.white,
            map: self.map.clone(),
            rule: self.rule.clone(),
            history: self.history.clone(),
            position: self.position.clone(),
        }
    }
}

/// The model of an optional game.
pub open spec fn game_model(o: Option<Game>) -> Option<GameModel> {
    match o {
        Some(g) => Some(g@),
        None => None,
    }
}

/// The settings of a room.
#[derive(Debug)]
pub struct RoomConf {
    pub king: UserId,
    pub black: UserId,
    pub white: UserId,
    /// The further settings, which the server does not read.
    pub details: String,
}

pub struct ConfModel {
    pub king: UserId,
    pub black: UserId,
    pub white: UserId,
    pub details: Seq<char>,
}

impl View for RoomConf {
    type V = ConfModel;

    open spec fn view(&self) -> ConfModel {
        ConfModel {
            king: self.king,
            black: self.black,
            white: self.white,
            details: self.details@,
        }
    }
}

impl Clone for RoomConf {
    fn clone(&self) -> (r: Self)
        ensures
            r == *self,
    {
        RoomConf {
            king: self.king,
            black: self.black,
            white: self.white,
            details: self.details.clone(),
        }
    }
}

/// An invitation of a user to a room.
#[derive(Debug)]
pub struct Invite {
    pub user_id: UserId,
    pub room_id: String,
}

pub struct InviteModel {
    pub user_id: UserId,
    pub room_id: Seq<char>,
}

impl View for Invite {
    type V = InviteModel;

    open spec fn view(&self) -> InviteModel {
        InviteModel { user_id: self.user_id, room_id: self.room_id@ }
    }
}

impl Clone for Invite {
    fn clone(&self) -> (r: Self)
        ensures
            r == *self,
    {
        Invite { user_id: self.user_id, room_id: self.room_id.clone() }
    }
}

/// A client's connection.
#[derive(Debug)]
pub struct Connection {
    pub conn_id: u128,
    pub user_id: UserId,
    pub room_id: Option<String>,
}

pub struct ConnectionModel {
    pub conn_id: u128,
    pub user_id: UserId,
    pub room_id: Option<Seq<char>>,
}

impl View for Connection {
    type V = ConnectionModel;

    open spec fn view(&self) -> ConnectionModel {
        ConnectionModel {
            conn_id: self.conn_id,
            user_id: self.user_id,
            room_id: text(self.room_id),
        }
    }
}

impl Clone for Connection {
    fn clone(&self) -> (r: Self)
        ensures
            r == *self,
    {
        let room_id = match &self.room_id {
            Some(id) => Some(id.clone()),
            None => None,
        };
        Connection { conn_id: self.conn_id, user_id: self.user_id, room_id }
    }
}

/// What a client is told.
#[derive(Debug)]
pub enum Event {
    Error { message: String },
    /// A game began; it is carried as it stood when it began.
    Started { game: Game },
    Ended {
        loser: UserId,
        winner_delta: i64,
        loser_delta: i64,
        player: Player,
        cause: EndedCause,
    },
    Left { user: UserId },
    Confed { conf: RoomConf },
    /// An event made by the handler of a command or of a task, in wire form.
    Other { json: String },
}

pub enum EventModel {
    Error { message: Seq<char> },
    Started { game: GameModel },
    Ended {
        loser: UserId,
        winner_delta: i64,
        loser_delta: i64,
        player: Player,
        cause: Seq<char>,
    },
    Left { user: UserId },
    Confed { conf: ConfModel },
    Other { json: Seq<char> },
}

impl View for Event {
    type V = EventModel;

    open spec fn view(&self) -> EventModel {
        match *self {
            Event::Error { message } => EventModel::Error { message: message@ },
            Event::Started { game } => EventModel::Started { game: game@ },
            Event::Ended { loser, winner_delta, loser_delta, player, cause } => EventModel::Ended {
                loser,
                winner_delta,
                loser_delta,
                player,
                cause: cause@,
            },
            Event::Left { user } => EventModel::Left { user },
            Event::Confed { conf } => EventModel::Confed { conf: conf@ },
            Event::Other { json } => EventModel::Other { json: json@ },
        }
    }
}

impl Clone for Event {
    fn clone(&self) -> (r: Self)
        ensures
            r == *self,
    {
        match self {
            Event::Error { message } => Event::Error { message: message.clone() },
            Event::Started { game } => Event::Started { game: game.clone() },
            Event::Ended { loser, winner_delta, loser_delta, player, cause } => Event::Ended {
                loser: *loser,
                winner_delta: *winner_delta,
                loser_delta: *loser_delta,
                player: *player,
                cause: cause.clone(),
            },
            Event::Left { user } => Event::Left { user: *user },
            Event::Confed { conf } => Event::Confed { conf: conf.clone() },
            Event::Other { json } => Event::Other { json: json.clone() },
        }
    }
}

/// A client's command, in the form in which its handler takes it.
#[derive(Debug)]
pub struct Command {
    pub json: String,
}

impl View for Command {
    type V = Seq<char>;

    open spec fn view(&self) -> Seq<char> {
        self.json@
    }
}

/// Work that one server asks of another.
#[derive(Debug)]
pub enum Task {
    CompleteGame {
        black: UserId,
        white: UserId,
        rank: bool,
        loser: Player,
        cause: EndedCause,
        map: String,
        game_rule: String,
        moves: String,
    },
    /// A task of another kind, in wire form.
    Other { json: String },
}

pub enum TaskModel {
    CompleteGame {
        black: UserId,
        white: UserId,
        rank: bool,
        loser: Player,
        cause: Seq<char>,
        map: Seq<char>,
        game_rule: Seq<char>,
        moves: Seq<char>,
    },
    Other { json: Seq<char> },
}

impl View for Task {
    type V = TaskModel;

    open spec fn view(&self) -> TaskModel {
        match *self {
            Task::CompleteGame { black, white, rank, loser, cause, map, game_rule, moves } =>
            TaskModel::CompleteGame {
                black,
                white,
                rank,
                loser,
                cause: cause@,
                map: map@,
                game_rule: game_rule@,
                moves: moves@,
            },
            Task::Other { json } => TaskModel::Other { json: json@ },
        }
    }
}

/// A task with the id under which its result is awaited.
#[derive(Debug)]
pub struct TaskRequest {
    pub id: String,
    pub task: Task,
}

pub struct RequestModel {
    pub id: Seq<char>,
    pub task: TaskModel,
}

impl View for TaskRequest {
    type V = RequestModel;

    open spec fn view(&self) -> RequestModel {
        RequestModel { id: self.id@, task: self.task@ }
    }
}

/// The result of a task: a value, or an error message.
#[derive(Debug)]
pub struct TaskResult {
    pub error: Option<String>,
    pub value: String,
}

pub struct ResultModel {
    pub error: Option<Seq<char>>,
    pub value: Seq<char>,
}

impl View for TaskResult {
    type V = ResultModel;

    open spec fn view(&self) -> ResultModel {
        ResultModel { error: text(self.error), value: self.value@ }
    }
}

/// How the ratings of the two players change at the end of a game.
#[derive(Clone, Copy, PartialEq, Eq, Structural, Debug)]
pub struct CompleteGameResult {
    pub winner_delta: i64,
    pub loser_delta: i64,
}

/// Why something was refused or failed.
#[derive(Debug)]
pub enum Error {
    /// The connection is not in a room.
    Permission,
    Internal,
    /// Something that was looked up is not there.
    Missing,
    /// A reply could not be read.
    Json,
    /// The address of the task store is not one, or the store failed.
    Redis,
    /// The other server reported this error.
    TaskError(String),
    /// The connection that caused the error is to be cut.
    ShouldTerminate(String),
}

} // verus!
