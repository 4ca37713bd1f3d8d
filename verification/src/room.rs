//! A room: its users, its settings, its game, and its waiting time if ranked.

use vstd::prelude::*;

use crate::model::{
    game_model, loss, ConfModel, EndedCause, Game, GameModel, Player, Rank, RoomConf, User, UserId,
};
use crate::table::{distinct, other_than, without, Table};

verus! {

/// Milliseconds that a ranked room waits for its next game after one has ended.
pub const RANK_TIME: isize = 10000;

#[verifier::ext_equal]
pub struct RoomModel {
    pub id: Seq<char>,
    pub users: Seq<(u128, User)>,
    pub conf: ConfModel,
    pub game: Option<GameModel>,
    pub rank: Option<Rank>,
}

/// What a ranked room makes of its seats and its time when a game has ended.
pub open spec fn rank_reset(rank: Option<Rank>) -> Option<Rank> {
    match rank {
        Some(_) => Some(Rank { black: UserId::Empty, white: UserId::Empty, time: RANK_TIME }),
        None => None,
    }
}

/// What `dt` milliseconds of waiting leave of a ranked room's time.
pub open spec fn rank_waited(rank: Option<Rank>, dt: usize) -> Option<Rank> {
    match rank {
        Some(r) => if r.time > 0 {
            Some(Rank { time: (r.time - (dt as isize)) as isize, ..r })
        } else {
            Some(r)
        },
        None => None,
    }
}

/// What the rules of the game answered for one room during one tick.
pub struct AnswerModel {
    /// The game that an attempt to start one left in the room.
    pub started: Option<GameModel>,
    /// The game after the tick, and who has lost it, if anyone.
    pub advanced: Option<(GameModel, Option<(Player, Seq<char>)>)>,
}

/// The users themselves.
pub open spec fn users_of(users: Seq<(u128, User)>) -> Seq<User> {
    users.map_values(|u: (u128, User)| u.1)
}

impl RoomModel {
    pub open spec fn wf(self) -> bool {
        distinct(self.users)
    }

    /// A user with this id is in the room.
    pub open spec fn exists_user(self, user_id: UserId) -> bool {
        exists|i: int| 0 <= i < self.users.len() && (#[trigger] self.users[i]).1.user_id == user_id
    }

    /// The users of the room but for the one of a connection.
    pub open spec fn others(self, conn_id: u128) -> Seq<(u128, User)> {
        without(self.users, conn_id)
    }

    /// A user with this id stays in the room when a connection leaves it.
    pub open spec fn stays(self, conn_id: u128, user_id: UserId) -> bool {
        exists|i: int|
            0 <= i < self.others(conn_id).len() && (#[trigger] self.others(conn_id)[i]).1.user_id
                == user_id
    }

    /// The room is ranked and no game is on.
    pub open spec fn waiting(self) -> bool {
        self.rank is Some && self.game is None
    }

    /// The room has waited for its time in vain.
    pub open spec fn closing(self) -> bool {
        self.waiting() && self.rank->0.time <= 0
    }

    /// Both players of the ranked game that the room waits for are here.
    pub open spec fn starting(self) -> bool {
        &&& self.waiting()
        &&& self.exists_user(self.rank->0.black)
        &&& self.exists_user(self.rank->0.white)
    }

    /// The time that is left after `dt` milliseconds is a number of this machine.
    pub open spec fn wait_fits(self, dt: usize) -> bool {
        self.waiting() && self.rank->0.time > 0 ==> isize::MIN <= self.rank->0.time - (dt as isize)
            <= isize::MAX
    }

    /// The room after `dt` milliseconds of waiting, if it waits.
    pub open spec fn waited(self, dt: usize) -> RoomModel {
        if self.waiting() {
            RoomModel { rank: rank_waited(self.rank, dt), ..self }
        } else {
            self
        }
    }

    /// `answer` can be an answer of the rules of the game for this room.
    pub open spec fn admits(self, answer: AnswerModel) -> bool {
        &&& answer.started is Some ==> self.starting()
        &&& answer.advanced is Some <==> self.game is Some || answer.started is Some
    }

    /// The room with the game that the rules of the game left in it.
    pub open spec fn played(self, answer: AnswerModel) -> RoomModel {
        RoomModel {
            game: match answer.advanced {
                Some(a) => Some(a.0),
                None => None,
            },
            ..self
        }
    }

    /// The room after its game has ended.
    pub open spec fn finished(self) -> RoomModel {
        RoomModel { game: None, rank: rank_reset(self.rank), ..self }
    }

    /// The room after the user of a connection has left it. If the user was
    /// king and others are left, `king` is the new king. While no game is on,
    /// the user's seats become free.
    pub open spec fn left(self, conn_id: u128, user_id: UserId, king: UserId) -> RoomModel {
        let users = self.others(conn_id);
        let seated = self.game is Some;
        let conf = ConfModel {
            king: if user_id == self.conf.king && users.len() != 0 { king } else { self.conf.king },
            black: if user_id == self.conf.black && !seated {
                UserId::Empty
            } else {
                self.conf.black
            },
            white: if user_id == self.conf.white && !seated {
                UserId::Empty
            } else {
                self.conf.white
            },
            details: self.conf.details,
        };
        RoomModel { users, conf, ..self }
    }
}

/// The answers of the rules of the game themselves, for one room and one tick.
pub struct Answer {
    pub started: Option<Game>,
    pub advanced: Option<(Game, Option<(Player, EndedCause)>)>,
}

impl View for Answer {
    type V = AnswerModel;

    open spec fn view(&self) -> AnswerModel {
        AnswerModel {
            started: game_model(self.started),
            advanced: match self.advanced {
                Some(a) => Some((a.0@, loss(a.1))),
                None => None,
            },
        }
    }
}

/// A room.
pub struct Room {
    pub id: String,
    pub users: Table<u128, User>,
    pub conf: RoomConf,
    pub game: Option<Game>,
    pub rank: Option<Rank>,
}

impl View for Room {
    type V = RoomModel;

    open spec fn view(&self) -> RoomModel {
        RoomModel {
            id: self.id@,
            users: self.users@,
            conf: self.conf@,
            game: game_model(self.game),
            rank: self.rank,
        }
    }
}

/// A room after `dt` milliseconds of waiting, if it waits.
pub open spec fn waited_room(room: Room, dt: usize) -> Room {
    if room@.waiting() {
        Room { rank: rank_waited(room.rank, dt), ..room }
    } else {
        room
    }
}

/// `answer` is what `start` and `advance` answer for `room` during a tick:
/// `start` is asked of the room where both players are here, and `advance` is
/// asked of the game that is then on, if one is.
pub open spec fn answered<S, A>(
    room: Room,
    dt: usize,
    start: S,
    advance: A,
    answer: Answer,
) -> bool where
    S: Fn(&Room) -> Option<Game>,
    A: Fn(Game, usize) -> (Game, Option<(Player, EndedCause)>),
 {
    let game = if room@.starting() {
        answer.started
    } else {
        room.game
    };
    &&& if room@.starting() {
        call_ensures(start, (&room,), answer.started)
    } else {
        answer.started is None
    }
    &&& match game {
        Some(g) => answer.advanced is Some && call_ensures(advance, (g, dt), answer.advanced->0),
        None => answer.advanced is None,
    }
}

impl Room {
    pub fn exists_user(&self, user_id: UserId) -> (r: bool)
        ensures
            r == self@.exists_user(user_id),
    {
        let mut i: usize = 0;
        while i < self.users.len()
            invariant
                i <= self.users@.len(),
                forall|j: int| 0 <= j < i ==> (#[trigger] self.users@[j]).1.user_id != user_id,
            decreases self.users@.len() - i,
        {
            if self.users.value_at(i).user_id == user_id {
                assert(self@.users[i as int].1.user_id == user_id);
                return true;
            }
            i += 1;
        }
        false
    }

    /// Lets a ranked room without a game wait for `dt` milliseconds. Says
    /// whether it had no time left to begin with.
    pub fn wait(&mut self, dt: usize) -> (closing: bool)
        requires
            old(self)@.wait_fits(dt),
        ensures
            closing == old(self)@.closing(),
            final(self)@ == old(self)@.waited(dt),
            *final(self) == waited_room(*old(self), dt),
    {
        if self.game.is_some() {
            return false;
        }
        match self.rank {
            Some(rank) => if rank.time <= 0 {
                true
            } else {
                self.rank = Some(Rank { time: rank.time - (dt as isize), ..rank });
                false
            },
            None => false,
        }
    }

    /// Asks the rules of the game for one tick of the room.
    pub fn ask<S, A>(&self, dt: usize, start: &S, advance: &A) -> (r: Answer) where
        S: Fn(&Room) -> Option<Game>,
        A: Fn(Game, usize) -> (Game, Option<(Player, EndedCause)>),

        requires
            self@.starting() ==> call_requires(*start, (self,)),
            forall|game: Game| #[trigger] call_requires(*advance, (game, dt)),
        ensures
            answered(*self, dt, *start, *advance, r),
            self@.admits(r@),
    {
        let mut started: Option<Game> = None;
        if self.game.is_none() {
            if let Some(rank) = self.rank {
                if self.exists_user(rank.black) && self.exists_user(rank.white) {
                    started = start(self);
                }
            }
        }
        let advanced = match (&self.game, &started) {
            (Some(game), _) => Some(advance(game.clone(), dt)),
            (None, Some(game)) => Some(advance(game.clone(), dt)),
            (None, None) => None,
        };
        Answer { started, advanced }
    }

    /// Puts the game that the rules of the game left into the room.
    pub fn play(&mut self, answer: &Answer)
        requires
            old(self)@.admits(answer@),
        ensures
            final(self)@ == old(self)@.played(answer@),
    {
        self.game = match &answer.advanced {
            Some(advanced) => Some(advanced.0.clone()),
            None => None,
        };
    }

    /// Ends the game of the room, if one is on. A ranked room then begins to
    /// wait anew, with both seats free.
    pub fn finish(&mut self) -> (game: Option<Game>)
        ensures
            game_model(game) == old(self)@.game,
            final(self)@ == if old(self)@.game is Some {
                old(self)@.finished()
            } else {
                old(self)@
            },
    {
        if self.game.is_some() && self.rank.is_some() {
            self.rank = Some(
                Rank { black: UserId::Empty, white: UserId::Empty, time: RANK_TIME },
            );
        }
        self.game.take()
    }

    /// Takes the user of a connection out of the room. Gives the settings of
    /// the room if that changed them.
    pub fn leave(&mut self, conn_id: u128, user_id: UserId, king: UserId) -> (changed: Option<
        RoomConf,
    >)
        requires
            old(self)@.wf(),
        ensures
            final(self)@ == old(self)@.left(conn_id, user_id, king),
            final(self)@.wf(),
            changed is Some <==> final(self)@.conf != old(self)@.conf,
            changed matches Some(conf) ==> conf@ == final(self)@.conf,
    {
        self.users.remove(&conn_id);
        let mut changed = false;
        if user_id == self.conf.king && self.users.len() != 0 {
            changed = king != self.conf.king;
            self.conf.king = king;
        }
        if self.game.is_none() {
            if user_id == self.conf.black {
                changed = changed || self.conf.black != UserId::Empty;
                self.conf.black = UserId::Empty;
            }
            if user_id == self.conf.white {
                changed = changed || self.conf.white != UserId::Empty;
                self.conf.white = UserId::Empty;
            }
        }
        if changed {
            Some(self.conf.clone())
        } else {
            None
        }
    }

    /// The users of the room but for the one of a connection.
    pub fn others(&self, conn_id: u128) -> (r: Vec<User>)
        ensures
            r@ == users_of(self@.others(conn_id)),
    {
        let ghost users = self.users@;
        let mut r: Vec<User> = Vec::new();
        let mut i: usize = 0;
        assert(users_of(without(users.take(0), conn_id)) =~= Seq::empty()) by {
            reveal(Seq::filter);
        }
        while i < self.users.len()
            invariant
                i <= users.len(),
                users == self.users@,
                r@ == users_of(without(users.take(i as int), conn_id)),
            decreases users.len() - i,
        {
            let ghost before = r@;
            if *self.users.key_at(i) != conn_id {
                r.push(*self.users.value_at(i));
            }
            proof {
                users.take(i as int).lemma_filter_push(users[i as int], other_than(conn_id));
                assert(users.take(i + 1) =~= users.take(i as int).push(users[i as int]));
                assert(r@ =~= users_of(without(users.take(i + 1), conn_id)));
            }
            i += 1;
        }
        assert(users.take(users.len() as int) =~= users);
        r
    }
}

} // verus!
