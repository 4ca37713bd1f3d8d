//! The server: its state, and what each event makes of it.
//!
//! What the server wants done outside of it (writing to sockets, asking the
//! lobby, announcing itself) it puts into its outbox, in order.

use std::collections::{HashMap, HashSet};
use vstd::prelude::*;

use crate::action::{actions, Action, ActionModel, Ending, GameReply, ServerEvent};
use crate::address::{for_redis, hostless, is_for_redis, is_hostless, is_overlong, overlong};
use crate::model::{
    Connection, ConnectionModel, EndedCause, Error, Event, Game, GameModel, Invite, Player,
    ResultModel, Task, TaskResult, UserId,
};
use crate::names::{redis_result_channel, REDIS_SERVER_HASH};
use crate::outside::{choose_user, open_redis, redis_open};
use crate::room::{answered, waited_room, Answer, AnswerModel, Room};
use crate::state::{
    games_lost, games_started, invites_user, kept, lemma_closing_step, lemma_deleted_all,
    lemma_deleted_step, lemma_deleted_wf, lemma_lists_empty, lemma_lists_step, lemma_played_wf,
    lemma_put_wf, lemma_reached_push, lemma_waited_knows, lemma_waited_starting, lemma_waited_wf,
    reached, rooms_closing, sends, shutdowns, ServerModel,
};
use crate::table::{at, distinct, get, holds, lemma_at, other_than, put, Table};

verus! {

broadcast use vstd::std_specs::hash::group_hash_axioms;

/// A game server.
pub struct Server {
    pub addr: String,
    pub real_addr: String,
    pub name: String,
    pub redis: redis::Client,
    pub rooms: Table<String, Room>,
    pub invites: Table<String, Invite>,
    pub conns: HashMap<u128, Connection>,
    pub streams: HashSet<u128>,
    pub outbox: Vec<Action>,
}

impl View for Server {
    type V = ServerModel;

    open spec fn view(&self) -> ServerModel {
        ServerModel {
            addr: self.addr@,
            real_addr: self.real_addr@,
            name: self.name@,
            redis: self.redis,
            rooms: self.rooms@,
            invites: self.invites@,
            conns: self.conns@.map_values(|c: Connection| c@),
            streams: self.streams@,
            outbox: actions(self.outbox@),
        }
    }
}

/// The models of what the rules of the game answered.
pub open spec fn answer_models(s: Seq<Answer>) -> Seq<AnswerModel> {
    s.map_values(|a: Answer| a@)
}

/// `answers` is what `start` and `advance` answer for each of the rooms, once
/// it has waited.
pub open spec fn all_answered<S, A>(
    rooms: Seq<(String, Room)>,
    dt: usize,
    start: S,
    advance: A,
    answers: Seq<Answer>,
) -> bool where
    S: Fn(&Room) -> Option<Game>,
    A: Fn(Game, usize) -> (Game, Option<(Player, EndedCause)>),
 {
    &&& answers.len() == rooms.len()
    &&& forall|i: int|
        0 <= i < rooms.len() ==> answered(
            waited_room(rooms[i].1, dt),
            dt,
            start,
            advance,
            #[trigger] answers[i],
        )
}

/// The models of rooms with the games that began in them.
pub open spec fn started_models(s: Seq<(String, Game)>) -> Seq<(Seq<char>, GameModel)> {
    s.map_values(|e: (String, Game)| (e.0@, e.1@))
}

/// The models of rooms with the losses of their games.
pub open spec fn lost_models(s: Seq<(String, Player, EndedCause)>) -> Seq<
    (Seq<char>, Player, Seq<char>),
> {
    s.map_values(|e: (String, Player, EndedCause)| (e.0@, e.1, e.2@))
}

/// The texts of some strings.
pub open spec fn texts(s: Seq<String>) -> Seq<Seq<char>> {
    s.map_values(|e: String| e@)
}

/// The result in which the outcome of a task is sent: its value, or the
/// message of its error and no value.
pub open spec fn outcome_result(outcome: Result<String, String>) -> ResultModel {
    match outcome {
        Ok(value) => ResultModel { error: None, value: value@ },
        Err(message) => ResultModel { error: Some(message@), value: Seq::empty() },
    }
}

impl Server {
    /// Every room in which `start` can begin a game, once the room has waited
    /// for `dt` milliseconds, is known by its id.
    pub open spec fn knows_starts<S>(&self, dt: usize, start: S) -> bool where
        S: Fn(&Room) -> Option<Game>,
     {
        forall|i: int, game: Game|
            0 <= i < self@.rooms.len() && self@.rooms[i].1.starting() && #[trigger] call_ensures(
                start,
                (&waited_room(self.rooms.raw()[i].1, dt),),
                Some(game),
            ) ==> holds(self@.rooms, self@.rooms[i].1.id)
    }

    /// A server with nobody on it. Its task store's address is one.
    pub fn new(addr: &str, name: &str, real_addr: &str, redis_addr: &str) -> (r: Self)
        requires
            !hostless(redis_addr@),
            for_redis(redis_addr@),
            !overlong(redis_addr@),
            redis_open(redis_addr@) is Some,
        ensures
            r@ == ServerModel::empty(addr@, name@, real_addr@, redis_open(redis_addr@)->0),
            r@.wf(),
    {
        Server::with_client(addr, name, real_addr, open_redis(redis_addr).unwrap())
    }

    /// A server with nobody on it, on a given task store.
    pub fn with_client(addr: &str, name: &str, real_addr: &str, redis: redis::Client) -> (r: Self)
        ensures
            r@ == ServerModel::empty(addr@, name@, real_addr@, redis),
            r@.wf(),
    {
        let r = Server {
            addr: addr.to_owned(),
            real_addr: real_addr.to_owned(),
            name: name.to_owned(),
            redis,
            rooms: Table::new(),
            invites: Table::new(),
            conns: HashMap::new(),
            streams: HashSet::new(),
            outbox: Vec::new(),
        };
        assert(r@.conns =~= Map::<u128, ConnectionModel>::empty());
        assert(r@.outbox =~= Seq::<ActionModel>::empty());
        r
    }

    /// A server with nobody on it, if its task store's address is one.
    pub fn connect(addr: &str, name: &str, real_addr: &str, redis_addr: &str) -> (r: Result<
        Self,
        Error,
    >)
        ensures
            match r {
                Ok(server) => {
                    &&& !hostless(redis_addr@)
                    &&& for_redis(redis_addr@)
                    &&& !overlong(redis_addr@)
                    &&& redis_open(redis_addr@) is Some
                    &&& server@ == ServerModel::empty(
                        addr@,
                        name@,
                        real_addr@,
                        redis_open(redis_addr@)->0,
                    )
                    &&& server@.wf()
                },
                Err(e) => {
                    &&& e is Redis
                    &&& hostless(redis_addr@) || !for_redis(redis_addr@) || overlong(redis_addr@)
                        || redis_open(redis_addr@) is None
                },
            },
    {
        if is_hostless(redis_addr) || !is_for_redis(redis_addr) || is_overlong(redis_addr) {
            return Err(Error::Redis);
        }
        match open_redis(redis_addr) {
            Ok(_) => Ok(Server::new(addr, name, real_addr, redis_addr)),
            Err(_) => Err(Error::Redis),
        }
    }

    /// Asks for something to be done outside.
    fn ask(&mut self, action: Action)
        ensures
            final(self)@ == old(self)@.asked(action@),
    {
        let ghost before = self@;
        self.outbox.push(action);
        assert(self@.outbox =~= before.outbox.push(action@));
    }

    /// Hands out what is to be done outside and forgets it.
    pub fn take_outbox(&mut self) -> (r: Vec<Action>)
        ensures
            actions(r@) == old(self)@.outbox,
            final(self)@ == (ServerModel { outbox: Seq::empty(), ..old(self)@ }),
    {
        let mut r: Vec<Action> = Vec::new();
        std::mem::swap(&mut r, &mut self.outbox);
        assert(self@.outbox =~= Seq::<ActionModel>::empty());
        r
    }

    /// The room that a connection is in.
    pub fn get_room(&self, conn: &Connection) -> (r: Result<&Room, Error>)
        requires
            self@.wf(),
        ensures
            match r {
                Ok(room) => {
                    &&& conn@.room_id is Some
                    &&& holds(self@.rooms, conn@.room_id->0)
                    &&& room@ == get(self@.rooms, conn@.room_id->0)
                },
                Err(Error::Permission) => conn@.room_id is None,
                Err(Error::Missing) => conn@.room_id is Some && !holds(
                    self@.rooms,
                    conn@.room_id->0,
                ),
                Err(_) => false,
            },
    {
        match &conn.room_id {
            Some(room_id) => match self.rooms.get(room_id) {
                Some(room) => Ok(room),
                None => Err(Error::Missing),
            },
            None => Err(Error::Permission),
        }
    }

    /// The room that a connection is in, to be changed.
    pub fn get_room_mut(&mut self, conn: &Connection) -> (r: Result<&mut Room, Error>)
        requires
            old(self)@.wf(),
        ensures
            match r {
                Ok(room) => {
                    &&& conn@.room_id is Some
                    &&& holds(old(self)@.rooms, conn@.room_id->0)
                    &&& room@ == get(old(self)@.rooms, conn@.room_id->0)
                    &&& final(self)@ == (ServerModel {
                        rooms: put(old(self)@.rooms, conn@.room_id->0, final(room)@),
                        ..old(self)@
                    })
                },
                Err(Error::Permission) => conn@.room_id is None && final(self)@ == old(self)@,
                Err(Error::Missing) => {
                    &&& conn@.room_id is Some
                    &&& !holds(old(self)@.rooms, conn@.room_id->0)
                    &&& final(self)@ == old(self)@
                },
                Err(_) => false,
            },
    {
        match &conn.room_id {
            Some(room_id) => match self.rooms.get_mut(room_id) {
                Some(room) => Ok(room),
                None => Err(Error::Missing),
            },
            None => Err(Error::Permission),
        }
    }

    /// Removes the room, and every room under the key of an invite to it.
    pub fn delete_room(&mut self, room_id: &str)
        requires
            old(self)@.wf(),
        ensures
            final(self)@ == old(self)@.deleted(room_id@),
            final(self)@.wf(),
    {
        let ghost before = self@;
        let room_id = room_id.to_owned();
        self.rooms.remove(&room_id);
        let mut i: usize = 0;
        assert(kept(before.invites.take(0), room_id@) =~= other_than(room_id@));
        while i < self.invites.len()
            invariant
                i <= self.invites@.len(),
                self.invites@ == before.invites,
                distinct(self.rooms@),
                self@ == before.deleted_upto(room_id@, i as int),
            decreases self.invites@.len() - i,
        {
            if self.invites.value_at(i).room_id == room_id {
                let key = self.invites.key_at(i).clone();
                self.rooms.remove(&key);
            }
            proof {
                lemma_deleted_step(before, room_id@, i as int);
            }
            i += 1;
        }
        proof {
            lemma_deleted_all(before, room_id@);
            lemma_deleted_wf(before, room_id@);
        }
    }

    /// An invite of the user to the room, if there is one.
    pub fn get_invite_of_user(&self, user_id: UserId, room_id: &str) -> (r: Option<Invite>)
        ensures
            match r {
                Some(invite) => {
                    &&& invites_user(invite@, user_id, room_id@)
                    &&& exists|i: int|
                        0 <= i < self@.invites.len() && (#[trigger] self@.invites[i]).1 == invite@
                },
                None => forall|i: int|
                    0 <= i < self@.invites.len() ==> !invites_user(
                        (#[trigger] self@.invites[i]).1,
                        user_id,
                        room_id@,
                    ),
            },
    {
        let wanted = room_id.to_owned();
        let mut i: usize = 0;
        while i < self.invites.len()
            invariant
                i <= self.invites@.len(),
                wanted@ == room_id@,
                forall|j: int|
                    0 <= j < i ==> !invites_user(
                        (#[trigger] self@.invites[j]).1,
                        user_id,
                        room_id@,
                    ),
            decreases self.invites@.len() - i,
        {
            let invite = self.invites.value_at(i);
            if invite.user_id == user_id && invite.room_id == wanted {
                assert(self@.invites[i as int].1 == invite@);
                return Some(invite.clone());
            }
            i += 1;
        }
        None
    }

    /// Announces this server.
    pub fn update_discover(&mut self)
        ensures
            final(self)@ == old(self)@.announced(),
    {
        let field = self.name.clone();
        self.ask(Action::Announce { hash: REDIS_SERVER_HASH.to_owned(), field });
    }

    /// Sends an event to a connection, if it has a stream.
    pub fn dispatch(&mut self, conn_id: u128, event: &Event)
        ensures
            final(self)@ == old(self)@.dispatched(conn_id, event@),
    {
        if self.streams.contains(&conn_id) {
            self.ask(Action::Send { conn_id, event: event.clone() });
        }
    }

    /// Cuts a connection, if it has a stream.
    pub fn kick(&mut self, conn_id: u128)
        ensures
            final(self)@ == old(self)@.kicked(conn_id),
    {
        if self.streams.contains(&conn_id) {
            self.ask(Action::Shutdown { conn_id });
        }
    }

    /// Cuts every user of a room.
    pub fn destroy_room(&mut self, room_id: &str)
        requires
            old(self)@.wf(),
        ensures
            final(self)@ == old(self)@.destroyed(room_id@),
    {
        let ghost before = self@;
        let room_id = room_id.to_owned();
        if let Some(p) = self.rooms.position(&room_id) {
            proof {
                lemma_at(self@.rooms, p as int);
            }
            let ghost users = get(before.rooms, room_id@).users;
            let n = self.rooms.value_at(p).users.len();
            let mut i: usize = 0;
            assert(self@.outbox =~= before.outbox + shutdowns(reached(users.take(0), before.streams)))
                by {
                reveal(Seq::filter);
            }
            while i < n
                invariant
                    i <= n,
                    n == users.len(),
                    p < before.rooms.len(),
                    before.rooms[p as int].1.users == users,
                    self@ == (ServerModel {
                        outbox: before.outbox + shutdowns(
                            reached(users.take(i as int), before.streams),
                        ),
                        ..before
                    }),
                decreases n - i,
            {
                let conn_id = self.rooms.value_at(p).users.value_at(i).conn_id;
                self.kick(conn_id);
                proof {
                    lemma_reached_push(users.take(i as int), users[i as int], before.streams);
                    assert(users.take(i + 1) =~= users.take(i as int).push(users[i as int]));
                    assert(self@.outbox =~= before.outbox + shutdowns(
                        reached(users.take(i + 1), before.streams),
                    ));
                }
                i += 1;
            }
            assert(users.take(n as int) =~= users);
        }
    }

    /// Sends an event to every user of a room.
    pub fn broadcast(&mut self, room_id: &str, event: &Event)
        requires
            old(self)@.wf(),
            holds(old(self)@.rooms, room_id@),
        ensures
            final(self)@ == old(self)@.broadcasted(room_id@, event@),
    {
        let ghost before = self@;
        let room_id = room_id.to_owned();
        if let Some(p) = self.rooms.position(&room_id) {
            proof {
                lemma_at(self@.rooms, p as int);
            }
            let ghost users = get(before.rooms, room_id@).users;
            let n = self.rooms.value_at(p).users.len();
            let mut i: usize = 0;
            assert(self@.outbox =~= before.outbox + sends(
                reached(users.take(0), before.streams),
                event@,
            )) by {
                reveal(Seq::filter);
            }
            while i < n
                invariant
                    i <= n,
                    n == users.len(),
                    p < before.rooms.len(),
                    before.rooms[p as int].1.users == users,
                    self@ == (ServerModel {
                        outbox: before.outbox + sends(
                            reached(users.take(i as int), before.streams),
                            event@,
                        ),
                        ..before
                    }),
                decreases n - i,
            {
                let conn_id = self.rooms.value_at(p).users.value_at(i).conn_id;
                self.dispatch(conn_id, event);
                proof {
                    lemma_reached_push(users.take(i as int), users[i as int], before.streams);
                    assert(users.take(i + 1) =~= users.take(i as int).push(users[i as int]));
                    assert(self@.outbox =~= before.outbox + sends(
                        reached(users.take(i + 1), before.streams),
                        event@,
                    ));
                }
                i += 1;
            }
            assert(users.take(n as int) =~= users);
        }
    }

    /// Ends the game of a room, which `loser` has lost, and asks the lobby to
    /// book its end.
    pub fn complete_game(&mut self, room_id: &str, loser: Player, cause: &EndedCause) -> (r: Result<
        (),
        Error,
    >)
        requires
            old(self)@.wf(),
        ensures
            final(self)@ == old(self)@.completed(room_id@, loser, cause@),
            final(self)@.wf(),
            match r {
                Ok(()) => old(self)@.playing(room_id@),
                Err(e) => !old(self)@.playing(room_id@) && e is Internal,
            },
    {
        let ghost before = self@;
        let room_id = room_id.to_owned();
        let (game, is_rank) = match self.rooms.get_mut(&room_id) {
            Some(room) => match room.finish() {
                Some(game) => (game, room.rank.is_some()),
                None => {
                    let ghost room = get(before.rooms, room_id@);
                    assert(put(before.rooms, room_id@, room) =~= before.rooms);
                    return Err(Error::Internal);
                },
            },
            None => return Err(Error::Internal),
        };
        proof {
            lemma_put_wf(before, room_id@, get(before.rooms, room_id@).finished());
        }
        let user = if loser == Player::Black {
            game.black
        } else {
            game.white
        };
        let task = Task::CompleteGame {
            black: game.black,
            white: game.white,
            rank: is_rank,
            loser,
            cause: cause.clone(),
            map: game.map,
            game_rule: game.rule,
            moves: game.history,
        };
        let ending = Ending { room_id, loser: user, player: loser, cause: cause.clone() };
        self.ask(Action::CompleteGame { task, ending });
        Ok(())
    }

    /// Tells a room how its game ended, once the lobby has replied.
    pub fn finish_game(&mut self, ending: Ending, reply: GameReply) -> (r: Result<(), Error>)
        requires
            old(self)@.wf(),
            holds(old(self)@.rooms, ending@.room_id),
        ensures
            match reply {
                GameReply::Done(result) => r is Ok && final(self)@ == old(self)@.ended(
                    ending@,
                    result,
                ),
                GameReply::Failed => r matches Err(Error::Internal) && final(self)@ == old(self)@,
                GameReply::Malformed => r matches Err(Error::Json) && final(self)@ == old(self)@,
            },
    {
        match reply {
            GameReply::Done(result) => {
                let event = Event::Ended {
                    loser: ending.loser,
                    winner_delta: result.winner_delta,
                    loser_delta: result.loser_delta,
                    player: ending.player,
                    cause: ending.cause,
                };
                self.broadcast(ending.room_id.as_str(), &event);
                Ok(())
            },
            GameReply::Failed => Err(Error::Internal),
            GameReply::Malformed => Err(Error::Json),
        }
    }

    /// Tells each room of the game that began in it, ends each of the lost
    /// games, and destroys each of the closing rooms, in this order.
    fn settle(
        &mut self,
        started: &Vec<(String, Game)>,
        lost: &Vec<(String, Player, EndedCause)>,
        closing: &Vec<String>,
    )
        requires
            old(self)@.wf(),
            forall|k: int|
                0 <= k < started.len() ==> holds(old(self)@.rooms, (#[trigger] started@[k]).0@),
        ensures
            final(self)@ == old(self)@.all_told(started_models(started@)).all_completed(
                lost_models(lost@),
            ).all_destroyed(texts(closing@)),
            final(self)@.wf(),
    {
        let ghost before = self@;
        let ghost told = started_models(started@);
        let mut i: usize = 0;
        while i < started.len()
            invariant
                i <= started.len(),
                told == started_models(started@),
                self@.wf(),
                self@.rooms == before.rooms,
                forall|k: int|
                    0 <= k < started.len() ==> holds(before.rooms, (#[trigger] started@[k]).0@),
                self@ == before.all_told(told.take(i as int)),
            decreases started.len() - i,
        {
            let event = Event::Started { game: started[i].1.clone() };
            self.broadcast(started[i].0.as_str(), &event);
            proof {
                assert(told.take(i + 1).drop_last() =~= told.take(i as int));
                assert(told.take(i + 1).last() == told[i as int]);
            }
            i += 1;
        }
        assert(told.take(told.len() as int) =~= told);
        let ghost after_told = self@;
        let ghost ends = lost_models(lost@);
        let mut i: usize = 0;
        while i < lost.len()
            invariant
                i <= lost.len(),
                ends == lost_models(lost@),
                self@.wf(),
                self@ == after_told.all_completed(ends.take(i as int)),
            decreases lost.len() - i,
        {
            let _ = self.complete_game(lost[i].0.as_str(), lost[i].1, &lost[i].2);
            proof {
                assert(ends.take(i + 1).drop_last() =~= ends.take(i as int));
                assert(ends.take(i + 1).last() == ends[i as int]);
            }
            i += 1;
        }
        assert(ends.take(ends.len() as int) =~= ends);
        let ghost after_ends = self@;
        let ghost closes = texts(closing@);
        let mut i: usize = 0;
        while i < closing.len()
            invariant
                i <= closing.len(),
                closes == texts(closing@),
                self@.wf(),
                self@ == after_ends.all_destroyed(closes.take(i as int)),
            decreases closing.len() - i,
        {
            self.destroy_room(closing[i].as_str());
            proof {
                assert(closes.take(i + 1).drop_last() =~= closes.take(i as int));
                assert(closes.take(i + 1).last() == closes[i as int]);
            }
            i += 1;
        }
        assert(closes.take(closes.len() as int) =~= closes);
    }

    /// Lets every room that waits wait for `dt` milliseconds. Gives the ids of
    /// those that had no time left.
    pub fn wait_all(&mut self, dt: usize) -> (closing: Vec<String>)
        requires
            old(self)@.wf(),
            old(self)@.waits_fit(dt),
        ensures
            final(self)@ == old(self)@.all_waited(dt),
            final(self)@.wf(),
            texts(closing@) == rooms_closing(old(self)@.rooms),
            final(self).rooms.raw() == old(self).rooms.raw().map_values(
                |e: (String, Room)| (e.0, waited_room(e.1, dt)),
            ),
    {
        let ghost before = self@;
        let ghost raw = self.rooms.raw();
        let mut closing: Vec<String> = Vec::new();
        let n = self.rooms.len();
        let mut i: usize = 0;
        proof {
            assert(before.rooms.take(0) =~= Seq::empty());
            assert(texts(closing@) =~= Seq::empty());
        }
        while i < n
            invariant
                i <= n,
                n == raw.len(),
                n == before.rooms.len(),
                before.waits_fit(dt),
                forall|j: int| 0 <= j < n ==> (#[trigger] raw[j]).1@ == before.rooms[j].1,
                self.rooms.raw().len() == n,
                forall|j: int|
                    0 <= j < n ==> #[trigger] self.rooms.raw()[j] == (if j < i {
                        (raw[j].0, waited_room(raw[j].1, dt))
                    } else {
                        raw[j]
                    }),
                self@ == (ServerModel { rooms: self@.rooms, ..before }),
                self@.rooms.len() == n,
                forall|j: int|
                    0 <= j < n ==> #[trigger] self@.rooms[j] == (if j < i {
                        (before.rooms[j].0, before.rooms[j].1.waited(dt))
                    } else {
                        before.rooms[j]
                    }),
                texts(closing@) == rooms_closing(before.rooms.take(i as int)),
            decreases n - i,
        {
            let ghost closing_before = closing@;
            assert(self.rooms.raw()[i as int] == raw[i as int]);
            assert(before.rooms[i as int].1.wait_fits(dt));
            let closes = self.rooms.value_at_mut(i).wait(dt);
            proof {
                lemma_closing_step(before.rooms, i as int);
            }
            if closes {
                let id = self.rooms.value_at(i).id.clone();
                closing.push(id);
                assert(texts(closing@) =~= texts(closing_before).push(id@));
            }
            i += 1;
        }
        proof {
            assert(before.rooms.take(n as int) =~= before.rooms);
            assert(self@.rooms =~= before.all_waited(dt).rooms);
            lemma_waited_wf(before, dt);
        }
        closing
    }

    /// Asks the rules of the game for one tick of every room.
    pub fn ask_all<S, A>(&self, dt: usize, start: &S, advance: &A) -> (answers: Vec<Answer>) where
        S: Fn(&Room) -> Option<Game>,
        A: Fn(Game, usize) -> (Game, Option<(Player, EndedCause)>),

        requires
            forall|room: Room| #[trigger] call_requires(*start, (&room,)),
            forall|game: Game| #[trigger] call_requires(*advance, (game, dt)),
        ensures
            self@.admits(answer_models(answers@)),
            forall|i: int|
                0 <= i < answers.len() ==> answered(
                    self.rooms.raw()[i].1,
                    dt,
                    *start,
                    *advance,
                    #[trigger] answers@[i],
                ),
    {
        let mut answers: Vec<Answer> = Vec::new();
        let mut i: usize = 0;
        while i < self.rooms.len()
            invariant
                i <= self.rooms@.len(),
                self.rooms@.len() == self.rooms.raw().len(),
                answers.len() == i,
                forall|room: Room| #[trigger] call_requires(*start, (&room,)),
                forall|game: Game| #[trigger] call_requires(*advance, (game, dt)),
                forall|j: int|
                    0 <= j < i ==> {
                        &&& answered(
                            self.rooms.raw()[j].1,
                            dt,
                            *start,
                            *advance,
                            #[trigger] answers@[j],
                        )
                        &&& self@.rooms[j].1.admits(answers@[j]@)
                    },
            decreases self.rooms@.len() - i,
        {
            let answer = self.rooms.value_at(i).ask(dt, start, advance);
            answers.push(answer);
            i += 1;
        }
        answers
    }

    /// Lets the games go on as the rules of the game answered, and destroys
    /// the closing rooms.
    pub fn go_on(&mut self, answers: &Vec<Answer>, closing: &Vec<String>)
        requires
            old(self)@.wf(),
            old(self)@.admits(answer_models(answers@)),
            old(self)@.knows_started(answer_models(answers@)),
        ensures
            final(self)@ == old(self)@.went_on(answer_models(answers@), texts(closing@)),
            final(self)@.wf(),
    {
        let ghost before = self@;
        let ghost models = answer_models(answers@);
        let mut started: Vec<(String, Game)> = Vec::new();
        let mut lost: Vec<(String, Player, EndedCause)> = Vec::new();
        let n = self.rooms.len();
        let mut i: usize = 0;
        proof {
            assert(models.take(0) =~= Seq::empty());
            assert(before.rooms.take(0) =~= Seq::empty());
            lemma_lists_empty();
            assert(started_models(started@) =~= Seq::empty());
            assert(lost_models(lost@) =~= Seq::empty());
        }
        while i < n
            invariant
                i <= n,
                n == before.rooms.len(),
                models == answer_models(answers@),
                before.admits(models),
                before.knows_started(models),
                self@ == (ServerModel { rooms: self@.rooms, ..before }),
                self@.rooms.len() == n,
                forall|j: int|
                    0 <= j < n ==> #[trigger] self@.rooms[j] == (if j < i {
                        (before.rooms[j].0, before.rooms[j].1.played(models[j]))
                    } else {
                        before.rooms[j]
                    }),
                started_models(started@) == games_started(
                    before.rooms.take(i as int),
                    models.take(i as int),
                ),
                lost_models(lost@) == games_lost(
                    before.rooms.take(i as int),
                    models.take(i as int),
                ),
                forall|k: int|
                    0 <= k < started.len() ==> holds(before.rooms, (#[trigger] started@[k]).0@),
            decreases n - i,
        {
            let ghost started_before = started@;
            let ghost lost_before = lost@;
            assert(self@.rooms[i as int] == before.rooms[i as int]);
            let answer = &answers[i];
            assert(answer@ == models[i as int]);
            self.rooms.value_at_mut(i).play(answer);
            let id = self.rooms.value_at(i).id.clone();
            proof {
                assert(models.take(i + 1) =~= models.take(i as int).push(answer@));
                lemma_lists_step(before.rooms, models.take(i as int), answer@, i as int);
                assert(before.rooms[i as int].1.id == id@);
            }
            if let Some(game) = &answer.started {
                started.push((id.clone(), game.clone()));
                assert(started_models(started@) =~= started_models(started_before).push(
                    (id@, game@),
                ));
            }
            if let Some(advanced) = &answer.advanced {
                if let Some((loser, cause)) = &advanced.1 {
                    lost.push((id, *loser, cause.clone()));
                    assert(lost_models(lost@) =~= lost_models(lost_before).push(
                        (id@, *loser, cause@),
                    ));
                }
            }
            i += 1;
        }
        proof {
            assert(before.rooms.take(n as int) =~= before.rooms);
            assert(models.take(n as int) =~= models);
            assert(self@.rooms =~= before.all_played(models).rooms);
            assert forall|k: int| 0 <= k < started.len() implies holds(
                self@.rooms,
                (#[trigger] started@[k]).0@,
            ) by {
                let p = at(before.rooms, started@[k].0@);
                assert(self@.rooms[p].0 == started@[k].0@);
            }
            lemma_played_wf(before, models);
        }
        self.settle(&started, &lost, closing);
    }

    /// Lets `dt` milliseconds pass, given what the rules of the game answer
    /// for each room.
    pub fn time_updated_with(&mut self, dt: usize, answers: &Vec<Answer>)
        requires
            old(self)@.wf(),
            old(self)@.waits_fit(dt),
            old(self)@.admits(answer_models(answers@)),
            old(self)@.knows_started(answer_models(answers@)),
        ensures
            final(self)@ == old(self)@.ticked(dt, answer_models(answers@)),
            final(self)@.wf(),
    {
        let ghost before = self@;
        let closing = self.wait_all(dt);
        proof {
            lemma_waited_knows(before, dt, answer_models(answers@));
        }
        self.go_on(answers, &closing);
    }

    /// Lets `dt` milliseconds pass. `start` is the attempt to start a game in
    /// a room and gives the game that it leaves there; `advance` lets a game
    /// go on for some milliseconds and says who has lost it then, if anyone.
    pub fn time_updated<S, A>(&mut self, dt: usize, start: &S, advance: &A) where
        S: Fn(&Room) -> Option<Game>,
        A: Fn(Game, usize) -> (Game, Option<(Player, EndedCause)>),

        requires
            old(self)@.wf(),
            old(self)@.waits_fit(dt),
            old(self).knows_starts(dt, *start),
            forall|room: Room| #[trigger] call_requires(*start, (&room,)),
            forall|game: Game| #[trigger] call_requires(*advance, (game, dt)),
        ensures
            exists|answers: Seq<Answer>|
                all_answered(old(self).rooms.raw(), dt, *start, *advance, answers)
                    && final(self)@ == old(self)@.ticked(dt, #[trigger] answer_models(answers)),
            final(self)@.wf(),
    {
        let ghost before = self@;
        let ghost raw = self.rooms.raw();
        let closing = self.wait_all(dt);
        let answers = self.ask_all(dt, start, advance);
        proof {
            let models = answer_models(answers@);
            assert(all_answered(raw, dt, *start, *advance, answers@));
            assert forall|i: int| 0 <= i < before.rooms.len() && models[i].started is Some implies holds(
                before.rooms,
                (#[trigger] before.rooms[i]).1.id,
            ) by {
                let game = answers@[i].started->0;
                lemma_waited_starting(before.rooms[i].1, dt);
                assert(call_ensures(*start, (&waited_room(raw[i].1, dt),), Some(game)));
            }
            lemma_waited_knows(before, dt, models);
        }
        self.go_on(&answers, &closing);
    }

    /// Takes a connection that is in a room off the server. Where the room
    /// loses its king by that and others are left, `king` becomes king.
    pub fn close_with(&mut self, conn_id: u128, king: UserId) -> (r: Result<(), Error>)
        requires
            old(self)@.wf(),
        ensures
            final(self)@ == old(self)@.closed(conn_id, king),
            final(self)@.wf(),
            match r {
                Ok(()) => old(self)@.in_room(conn_id),
                Err(e) => !old(self)@.in_room(conn_id) && e is Missing,
            },
    {
        let ghost before = self@;
        let conn = match self.conns.get(&conn_id) {
            Some(conn) => conn.clone(),
            None => return Err(Error::Missing),
        };
        let room_id = match conn.room_id {
            Some(room_id) => room_id,
            None => return Err(Error::Missing),
        };
        let user_id = conn.user_id;
        let (conf, empty, is_rank) = match self.rooms.get_mut(&room_id) {
            Some(room) => {
                let conf = room.leave(conn_id, user_id, king);
                (conf, room.users.len() == 0, room.rank.is_some())
            },
            None => return Err(Error::Missing),
        };
        let ghost room = get(before.rooms, room_id@).left(conn_id, user_id, king);
        proof {
            lemma_put_wf(before, room_id@, room);
        }
        if empty && !is_rank {
            self.delete_room(room_id.as_str());
        } else {
            self.broadcast(room_id.as_str(), &Event::Left { user: user_id });
            if let Some(conf) = conf {
                self.broadcast(room_id.as_str(), &Event::Confed { conf });
            }
        }
        let ghost told = self@;
        self.streams.remove(&conn_id);
        self.conns.remove(&conn_id);
        assert(self@.conns =~= told.conns.remove(conn_id));
        self.update_discover();
        Ok(())
    }

    /// Takes a connection that is in a room off the server. Where the room
    /// loses its king by that and others are left, one of them, chosen at
    /// random, becomes king.
    pub fn close(&mut self, conn_id: u128) -> (r: Result<(), Error>)
        requires
            old(self)@.wf(),
        ensures
            exists|king: UserId|
                {
                    &&& final(self)@ == #[trigger] old(self)@.closed(conn_id, king)
                    &&& old(self)@.in_room(conn_id) && old(self)@.loses_king(conn_id)
                        ==> old(self)@.room_of(conn_id).stays(conn_id, king)
                },
            final(self)@.wf(),
            match r {
                Ok(()) => old(self)@.in_room(conn_id),
                Err(e) => !old(self)@.in_room(conn_id) && e is Missing,
            },
    {
        let king = self.next_king(conn_id);
        self.close_with(conn_id, king)
    }

    /// A user that can be king of the room of a connection once it has closed.
    fn next_king(&self, conn_id: u128) -> (king: UserId)
        requires
            self@.wf(),
        ensures
            self@.in_room(conn_id) && self@.loses_king(conn_id) ==> self@.room_of(conn_id).stays(
                conn_id,
                king,
            ),
    {
        let conn = match self.conns.get(&conn_id) {
            Some(conn) => conn,
            None => return UserId::Empty,
        };
        let room = match self.get_room(conn) {
            Ok(room) => room,
            Err(_) => return UserId::Empty,
        };
        if conn.user_id != room.conf.king {
            return UserId::Empty;
        }
        let others = room.others(conn_id);
        match choose_user(&others) {
            Some(user) => user.user_id,
            None => UserId::Empty,
        }
    }

    /// Tells a connection that its command failed, and cuts it where the
    /// error demands that.
    pub fn command_failed(&mut self, conn_id: u128, err: &Error, message: String)
        ensures
            final(self)@ == old(self)@.refused(conn_id, message@, err is ShouldTerminate),
    {
        self.dispatch(conn_id, &Event::Error { message });
        match err {
            Error::ShouldTerminate(_) => self.kick(conn_id),
            _ => {},
        }
    }

    /// Sends the result of a task to whoever awaits it.
    pub fn send_result(&mut self, id: &str, result: TaskResult)
        ensures
            final(self)@ == old(self)@.resulted(id@, result@),
    {
        let channel = redis_result_channel(id);
        self.ask(Action::PushResult { channel, result });
    }

    /// Sends on what a task came to: its value, or the message of its error.
    pub fn task_done(&mut self, id: &str, outcome: Result<String, String>)
        ensures
            final(self)@ == old(self)@.resulted(id@, outcome_result(outcome)),
    {
        let result = match outcome {
            Ok(value) => TaskResult { error: None, value },
            Err(message) => TaskResult { error: Some(message), value: String::new() },
        };
        self.send_result(id, result);
    }

    /// Handles an event. `start` and `advance` are the rules of the game, as
    /// for the passing of time.
    pub fn handle_event<S, A>(&mut self, event: ServerEvent, start: &S, advance: &A) -> (r: Result<
        (),
        Error,
    >) where
        S: Fn(&Room) -> Option<Game>,
        A: Fn(Game, usize) -> (Game, Option<(Player, EndedCause)>),

        requires
            old(self)@.wf(),
            event matches ServerEvent::Command { conn_id, cmd } ==> old(self)@.conns.contains_key(
                conn_id,
            ),
            event matches ServerEvent::TimeUpdated { dt } ==> {
                &&& old(self)@.waits_fit(dt)
                &&& old(self).knows_starts(dt, *start)
                &&& forall|room: Room| #[trigger] call_requires(*start, (&room,))
                &&& forall|game: Game| #[trigger] call_requires(*advance, (game, dt))
            },
        ensures
            final(self)@.wf(),
            match event {
                ServerEvent::Connect { conn_id } => r is Ok && final(self)@
                    == old(self)@.connected(conn_id),
                ServerEvent::Command { conn_id, cmd } => r is Ok && final(self)@
                    == old(self)@.asked(
                    ActionModel::RunCommand {
                        conn_id,
                        conn: old(self)@.conns[conn_id],
                        cmd: cmd@,
                    },
                ),
                ServerEvent::DiscoverUpdated => r is Ok && final(self)@ == old(self)@.announced(),
                ServerEvent::TimeUpdated { dt } => r is Ok && exists|answers: Seq<Answer>|
                    all_answered(old(self).rooms.raw(), dt, *start, *advance, answers)
                        && final(self)@ == old(self)@.ticked(dt, #[trigger] answer_models(answers)),
                ServerEvent::TaskRequest { task_request } => r is Ok && final(self)@
                    == old(self)@.asked(ActionModel::RunTask { request: task_request@ }),
                ServerEvent::Close { conn_id } => {
                    &&& exists|king: UserId|
                        {
                            &&& final(self)@ == #[trigger] old(self)@.closed(conn_id, king)
                            &&& old(self)@.in_room(conn_id) && old(self)@.loses_king(conn_id)
                                ==> old(self)@.room_of(conn_id).stays(conn_id, king)
                        }
                    &&& match r {
                        Ok(()) => old(self)@.in_room(conn_id),
                        Err(e) => !old(self)@.in_room(conn_id) && e is Missing,
                    }
                },
                ServerEvent::Dispatch { conn_id, event } => r is Ok && final(self)@
                    == old(self)@.dispatched(conn_id, event@),
            },
    {
        let ghost before = self@;
        match event {
            ServerEvent::Connect { conn_id } => {
                self.conns.insert(
                    conn_id,
                    Connection { conn_id, user_id: UserId::Empty, room_id: None },
                );
                self.streams.insert(conn_id);
                assert(self@.conns =~= before.connected(conn_id).conns);
                Ok(())
            },
            ServerEvent::Command { conn_id, cmd } => {
                let conn = self.conns.get(&conn_id).unwrap().clone();
                self.ask(Action::RunCommand { conn_id, conn, cmd });
                Ok(())
            },
            ServerEvent::DiscoverUpdated => {
                self.update_discover();
                Ok(())
            },
            ServerEvent::TimeUpdated { dt } => {
                self.time_updated(dt, start, advance);
                Ok(())
            },
            ServerEvent::TaskRequest { task_request } => {
                self.ask(Action::RunTask { request: task_request });
                Ok(())
            },
            ServerEvent::Close { conn_id } => self.close(conn_id),
            ServerEvent::Dispatch { conn_id, event } => {
                self.dispatch(conn_id, &event);
                Ok(())
            },
        }
    }
}

} // verus!
