//! The model of the server's state and of what each operation makes of it.

use vstd::prelude::*;

use crate::action::{ActionModel, EndingModel};
use crate::model::{
    CompleteGameResult, ConnectionModel, EventModel, GameModel, InviteModel, Player, ResultModel,
    TaskModel, User, UserId,
};
use crate::names::{result_channel, REDIS_SERVER_HASH};
use crate::room::{AnswerModel, RoomModel};
use crate::table::{
    at, distinct, get, holds, lemma_at, lemma_filter_distinct, lemma_filter_member,
    lemma_filter_twice, other_than, put, without,
};

verus! {

#[verifier::ext_equal]
pub struct ServerModel {
    pub addr: Seq<char>,
    pub real_addr: Seq<char>,
    pub name: Seq<char>,
    pub redis: redis::Client,
    pub rooms: Seq<(Seq<char>, RoomModel)>,
    pub invites: Seq<(Seq<char>, InviteModel)>,
    pub conns: Map<u128, ConnectionModel>,
    /// The connections whose sockets can be written to.
    pub streams: Set<u128>,
    /// What is to be done outside, in order.
    pub outbox: Seq<ActionModel>,
}

/// The connections of those users that have a stream, in the order of the users.
pub open spec fn reached(users: Seq<(u128, User)>, streams: Set<u128>) -> Seq<u128> {
    users.filter(|u: (u128, User)| streams.contains(u.1.conn_id)).map_values(
        |u: (u128, User)| u.1.conn_id,
    )
}

/// One and the same event for each of some connections.
pub open spec fn sends(conns: Seq<u128>, event: EventModel) -> Seq<ActionModel> {
    conns.map_values(|c: u128| ActionModel::Send { conn_id: c, event })
}

/// A shutdown for each of some connections.
pub open spec fn shutdowns(conns: Seq<u128>) -> Seq<ActionModel> {
    conns.map_values(|c: u128| ActionModel::Shutdown { conn_id: c })
}

/// `key` is the key of an invite to the room `room_id`.
pub open spec fn invited(
    invites: Seq<(Seq<char>, InviteModel)>,
    room_id: Seq<char>,
    key: Seq<char>,
) -> bool {
    exists|i: int|
        0 <= i < invites.len() && (#[trigger] invites[i]).0 == key && invites[i].1.room_id
            == room_id
}

/// The rooms that stay when the room `room_id` is deleted.
pub open spec fn kept(invites: Seq<(Seq<char>, InviteModel)>, room_id: Seq<char>) -> spec_fn(
    (Seq<char>, RoomModel),
) -> bool {
    |e: (Seq<char>, RoomModel)| e.0 != room_id && !invited(invites, room_id, e.0)
}

/// `invite` invites the user to the room.
pub open spec fn invites_user(invite: InviteModel, user_id: UserId, room_id: Seq<char>) -> bool {
    invite.user_id == user_id && invite.room_id == room_id
}

/// The user that lost `game` as `player`.
pub open spec fn loser_of(game: GameModel, player: Player) -> UserId {
    if player == Player::Black {
        game.black
    } else {
        game.white
    }
}

/// The rooms in which a game began during a tick, with those games.
pub open spec fn games_started(
    rooms: Seq<(Seq<char>, RoomModel)>,
    answers: Seq<AnswerModel>,
) -> Seq<(Seq<char>, GameModel)> {
    rooms.zip_with(answers).filter_map(
        |e: ((Seq<char>, RoomModel), AnswerModel)|
            match e.1.started {
                Some(game) => Some((e.0.1.id, game)),
                None => None,
            },
    )
}

/// Who has lost the game of a room after a tick, and why.
pub open spec fn lost_in(answer: AnswerModel) -> Option<(Player, Seq<char>)> {
    match answer.advanced {
        Some(a) => a.1,
        None => None,
    }
}

/// The rooms whose game was lost during a tick, with the loser and the cause.
pub open spec fn games_lost(
    rooms: Seq<(Seq<char>, RoomModel)>,
    answers: Seq<AnswerModel>,
) -> Seq<(Seq<char>, Player, Seq<char>)> {
    rooms.zip_with(answers).filter_map(
        |e: ((Seq<char>, RoomModel), AnswerModel)|
            match lost_in(e.1) {
                Some(l) => Some((e.0.1.id, l.0, l.1)),
                None => None,
            },
    )
}

/// The rooms that have waited in vain.
pub open spec fn rooms_closing(rooms: Seq<(Seq<char>, RoomModel)>) -> Seq<Seq<char>> {
    rooms.filter_map(
        |e: (Seq<char>, RoomModel)|
            if e.1.closing() {
                Some(e.1.id)
            } else {
                None
            },
    )
}

/// One more user is reached if it has a stream.
pub proof fn lemma_reached_push(users: Seq<(u128, User)>, user: (u128, User), streams: Set<u128>)
    ensures
        reached(users.push(user), streams) == if streams.contains(user.1.conn_id) {
            reached(users, streams).push(user.1.conn_id)
        } else {
            reached(users, streams)
        },
{
    users.lemma_filter_push(user, |u: (u128, User)| streams.contains(u.1.conn_id));
    assert(reached(users.push(user), streams) =~= if streams.contains(user.1.conn_id) {
        reached(users, streams).push(user.1.conn_id)
    } else {
        reached(users, streams)
    });
}

/// One more invite is looked at.
pub proof fn lemma_deleted_step(m: ServerModel, room_id: Seq<char>, n: int)
    requires
        0 <= n < m.invites.len(),
    ensures
        m.deleted_upto(room_id, n + 1).rooms == if m.invites[n].1.room_id == room_id {
            without(m.deleted_upto(room_id, n).rooms, m.invites[n].0)
        } else {
            m.deleted_upto(room_id, n).rooms
        },
{
    let a = m.invites.take(n);
    let b = m.invites.take(n + 1);
    let key = m.invites[n].0;
    let p = kept(a, room_id);
    let q = other_than::<Seq<char>, RoomModel>(key);
    let both = kept(b, room_id);
    assert forall|k: Seq<char>| #[trigger] invited(b, room_id, k) == (invited(a, room_id, k) || (
    m.invites[n].1.room_id == room_id && k == key)) by {
        if invited(a, room_id, k) {
            let i = choose|i: int|
                0 <= i < a.len() && (#[trigger] a[i]).0 == k && a[i].1.room_id == room_id;
            assert(b[i] == a[i]);
        }
        if m.invites[n].1.room_id == room_id && k == key {
            assert(b[n].0 == k);
        }
        if invited(b, room_id, k) {
            let i = choose|i: int|
                0 <= i < b.len() && (#[trigger] b[i]).0 == k && b[i].1.room_id == room_id;
            if i < n {
                assert(a[i] == b[i]);
            }
        }
    }
    if m.invites[n].1.room_id == room_id {
        lemma_filter_twice(m.rooms, p, q, both);
    } else {
        assert(p =~= both);
    }
}

/// All invites are looked at.
pub proof fn lemma_deleted_all(m: ServerModel, room_id: Seq<char>)
    ensures
        m.deleted_upto(room_id, m.invites.len() as int) == m.deleted(room_id),
{
    assert(m.invites.take(m.invites.len() as int) =~= m.invites);
}

/// Deleting rooms keeps the state well-formed.
pub proof fn lemma_deleted_wf(m: ServerModel, room_id: Seq<char>)
    requires
        m.wf(),
    ensures
        m.deleted(room_id).wf(),
{
    let p = kept(m.invites, room_id);
    let rooms = m.rooms.filter(p);
    lemma_filter_distinct(m.rooms, p);
    assert forall|i: int| 0 <= i < rooms.len() implies (#[trigger] rooms[i]).1.wf() by {
        lemma_filter_member(m.rooms, p, rooms[i]);
        assert(rooms.contains(rooms[i]));
        let j = choose|j: int| 0 <= j < m.rooms.len() && m.rooms[j] == rooms[i];
        assert(m.rooms[j].1.wf());
    }
}

/// Changing a room keeps the state well-formed.
pub proof fn lemma_put_wf(m: ServerModel, room_id: Seq<char>, room: RoomModel)
    requires
        m.wf(),
        holds(m.rooms, room_id),
        room.wf(),
    ensures
        (ServerModel { rooms: put(m.rooms, room_id, room), ..m }).wf(),
        get(m.rooms, room_id).wf(),
        holds(put(m.rooms, room_id, room), room_id),
        get(put(m.rooms, room_id, room), room_id) == room,
{
    let p = at(m.rooms, room_id);
    let rooms = put(m.rooms, room_id, room);
    assert(m.rooms[p].0 == room_id);
    assert forall|i: int, j: int| 0 <= i < rooms.len() && 0 <= j < rooms.len() && i != j implies (
    #[trigger] rooms[i]).0 != (#[trigger] rooms[j]).0 by {
        assert(rooms[i].0 == m.rooms[i].0);
        assert(rooms[j].0 == m.rooms[j].0);
    }
    assert forall|i: int| 0 <= i < rooms.len() implies (#[trigger] rooms[i]).1.wf() by {
        assert(m.rooms[i].1.wf());
    }
    assert(rooms[p] == (room_id, room));
    lemma_at(rooms, p);
}

/// Nothing happens in no room.
pub proof fn lemma_lists_empty()
    ensures
        games_started(Seq::empty(), Seq::empty()) == Seq::<(Seq<char>, GameModel)>::empty(),
        games_lost(Seq::empty(), Seq::empty()) == Seq::<(Seq<char>, Player, Seq<char>)>::empty(),
{
}

/// The first rooms and one more close.
pub proof fn lemma_closing_step(rooms: Seq<(Seq<char>, RoomModel)>, n: int)
    requires
        0 <= n < rooms.len(),
    ensures
        rooms_closing(rooms.take(n + 1)) == if rooms[n].1.closing() {
            rooms_closing(rooms.take(n)).push(rooms[n].1.id)
        } else {
            rooms_closing(rooms.take(n))
        },
{
    assert(rooms.take(n + 1).drop_last() =~= rooms.take(n));
    assert(rooms.take(n + 1).last() == rooms[n]);
}

/// What happens in the first rooms and in one more.
pub proof fn lemma_lists_step(
    rooms: Seq<(Seq<char>, RoomModel)>,
    answers: Seq<AnswerModel>,
    answer: AnswerModel,
    n: int,
)
    requires
        0 <= n < rooms.len(),
        answers.len() == n,
    ensures
        games_started(rooms.take(n + 1), answers.push(answer)) == match answer.started {
            Some(game) => games_started(rooms.take(n), answers).push((rooms[n].1.id, game)),
            None => games_started(rooms.take(n), answers),
        },
        games_lost(rooms.take(n + 1), answers.push(answer)) == match lost_in(answer) {
            Some(l) => games_lost(rooms.take(n), answers).push((rooms[n].1.id, l.0, l.1)),
            None => games_lost(rooms.take(n), answers),
        },
{
    let a = rooms.take(n).zip_with(answers);
    let b = rooms.take(n + 1).zip_with(answers.push(answer));
    assert(b.drop_last() =~= a);
    assert(b.last() == (rooms[n], answer));
}

/// Waiting keeps the state well-formed.
pub proof fn lemma_waited_wf(m: ServerModel, dt: usize)
    requires
        m.wf(),
    ensures
        m.all_waited(dt).wf(),
{
    let rooms = m.all_waited(dt).rooms;
    assert forall|i: int, j: int| 0 <= i < rooms.len() && 0 <= j < rooms.len() && i != j implies (
    #[trigger] rooms[i]).0 != (#[trigger] rooms[j]).0 by {
        assert(m.rooms[i].0 != m.rooms[j].0);
    }
    assert forall|i: int| 0 <= i < rooms.len() implies (#[trigger] rooms[i]).1.wf() by {
        assert(m.rooms[i].1.wf());
    }
}

/// Waiting changes neither which rooms are known nor where games can begin.
pub proof fn lemma_waited_knows(m: ServerModel, dt: usize, answers: Seq<AnswerModel>)
    ensures
        m.admits(answers) ==> m.all_waited(dt).admits(answers),
        m.knows_started(answers) ==> m.all_waited(dt).knows_started(answers),
{
    let w = m.all_waited(dt);
    assert forall|k: Seq<char>| #[trigger] holds(m.rooms, k) implies holds(w.rooms, k) by {
        let i = at(m.rooms, k);
        assert(w.rooms[i].0 == k);
    }
    assert forall|i: int| 0 <= i < m.rooms.len() implies #[trigger] w.rooms[i] == (
        m.rooms[i].0,
        m.rooms[i].1.waited(dt),
    ) && w.rooms[i].1.admits(answers[i]) == m.rooms[i].1.admits(answers[i]) by {
        lemma_waited_starting(m.rooms[i].1, dt);
    }
    if m.knows_started(answers) {
        assert forall|i: int| 0 <= i < w.rooms.len() && answers[i].started is Some implies holds(
            w.rooms,
            (#[trigger] w.rooms[i]).1.id,
        ) by {
            assert(holds(m.rooms, m.rooms[i].1.id));
        }
    }
}

/// Waiting changes nothing of whether a game can begin.
pub proof fn lemma_waited_starting(room: RoomModel, dt: usize)
    ensures
        room.waited(dt).starting() == room.starting(),
{
    if room.waiting() {
        let w = room.waited(dt);
        assert(w.users == room.users);
        assert(w.exists_user(w.rank->0.black) == room.exists_user(room.rank->0.black));
        assert(w.exists_user(w.rank->0.white) == room.exists_user(room.rank->0.white));
    }
}

/// Playing on keeps the state well-formed.
pub proof fn lemma_played_wf(m: ServerModel, answers: Seq<AnswerModel>)
    requires
        m.wf(),
    ensures
        m.all_played(answers).wf(),
{
    let rooms = m.all_played(answers).rooms;
    assert forall|i: int, j: int| 0 <= i < rooms.len() && 0 <= j < rooms.len() && i != j implies (
    #[trigger] rooms[i]).0 != (#[trigger] rooms[j]).0 by {
        assert(m.rooms[i].0 != m.rooms[j].0);
    }
    assert forall|i: int| 0 <= i < rooms.len() implies (#[trigger] rooms[i]).1.wf() by {
        assert(m.rooms[i].1.wf());
    }
}

impl ServerModel {
    /// No key is double.
    pub open spec fn wf(self) -> bool {
        &&& distinct(self.rooms)
        &&& distinct(self.invites)
        &&& forall|i: int| 0 <= i < self.rooms.len() ==> (#[trigger] self.rooms[i]).1.wf()
    }

    /// A server with nobody on it.
    pub open spec fn empty(
        addr: Seq<char>,
        name: Seq<char>,
        real_addr: Seq<char>,
        redis: redis::Client,
    ) -> ServerModel {
        ServerModel {
            addr,
            real_addr,
            name,
            redis,
            rooms: Seq::empty(),
            invites: Seq::empty(),
            conns: Map::empty(),
            streams: Set::empty(),
            outbox: Seq::empty(),
        }
    }

    /// Something more is to be done outside.
    pub open spec fn asked(self, action: ActionModel) -> ServerModel {
        ServerModel { outbox: self.outbox.push(action), ..self }
    }

    /// An event goes out to a connection that has a stream.
    pub open spec fn dispatched(self, conn_id: u128, event: EventModel) -> ServerModel {
        if self.streams.contains(conn_id) {
            self.asked(ActionModel::Send { conn_id, event })
        } else {
            self
        }
    }

    /// A connection that has a stream is cut.
    pub open spec fn kicked(self, conn_id: u128) -> ServerModel {
        if self.streams.contains(conn_id) {
            self.asked(ActionModel::Shutdown { conn_id })
        } else {
            self
        }
    }

    /// An event goes out to every user of a room that has a stream.
    pub open spec fn broadcasted(self, room_id: Seq<char>, event: EventModel) -> ServerModel {
        let users = get(self.rooms, room_id).users;
        ServerModel { outbox: self.outbox + sends(reached(users, self.streams), event), ..self }
    }

    /// Every user of a room that has a stream is cut.
    pub open spec fn destroyed(self, room_id: Seq<char>) -> ServerModel {
        if holds(self.rooms, room_id) {
            let users = get(self.rooms, room_id).users;
            ServerModel { outbox: self.outbox + shutdowns(reached(users, self.streams)), ..self }
        } else {
            self
        }
    }

    /// The room is gone, and with it every room that stands under the key of
    /// an invite to it. The invites stay.
    pub open spec fn deleted(self, room_id: Seq<char>) -> ServerModel {
        ServerModel {
            rooms: self.rooms.filter(kept(self.invites, room_id)),
            ..self
        }
    }

    /// The room is gone, and every room under the key of one of the first `n`
    /// invites, if that is an invite to it.
    pub open spec fn deleted_upto(self, room_id: Seq<char>, n: int) -> ServerModel {
        ServerModel {
            rooms: self.rooms.filter(kept(self.invites.take(n), room_id)),
            ..self
        }
    }

    /// This server's description is to be brought up to date.
    pub open spec fn announced(self) -> ServerModel {
        self.asked(ActionModel::Announce { hash: REDIS_SERVER_HASH@, field: self.name })
    }

    /// A game is on in the room.
    pub open spec fn playing(self, room_id: Seq<char>) -> bool {
        holds(self.rooms, room_id) && get(self.rooms, room_id).game is Some
    }

    /// The game of a room ends, and the lobby is asked to book its end.
    pub open spec fn completed(
        self,
        room_id: Seq<char>,
        loser: Player,
        cause: Seq<char>,
    ) -> ServerModel {
        if self.playing(room_id) {
            let room = get(self.rooms, room_id);
            let game = room.game->0;
            ServerModel { rooms: put(self.rooms, room_id, room.finished()), ..self }.asked(
                ActionModel::CompleteGame {
                    task: TaskModel::CompleteGame {
                        black: game.black,
                        white: game.white,
                        rank: room.rank is Some,
                        loser,
                        cause,
                        map: game.map,
                        game_rule: game.rule,
                        moves: game.history,
                    },
                    ending: EndingModel {
                        room_id,
                        loser: loser_of(game, loser),
                        player: loser,
                        cause,
                    },
                },
            )
        } else {
            self
        }
    }

    /// The users of a room are told how its game ended.
    pub open spec fn ended(self, ending: EndingModel, result: CompleteGameResult) -> ServerModel {
        self.broadcasted(
            ending.room_id,
            EventModel::Ended {
                loser: ending.loser,
                winner_delta: result.winner_delta,
                loser_delta: result.loser_delta,
                player: ending.player,
                cause: ending.cause,
            },
        )
    }

    /// A new connection, of nobody yet and in no room.
    pub open spec fn connected(self, conn_id: u128) -> ServerModel {
        ServerModel {
            conns: self.conns.insert(
                conn_id,
                ConnectionModel { conn_id, user_id: UserId::Empty, room_id: None },
            ),
            streams: self.streams.insert(conn_id),
            ..self
        }
    }

    /// The connection is known and in a room that is known.
    pub open spec fn in_room(self, conn_id: u128) -> bool {
        &&& self.conns.contains_key(conn_id)
        &&& self.conns[conn_id].room_id is Some
        &&& holds(self.rooms, self.conns[conn_id].room_id->0)
    }

    /// The room of a connection that is in one.
    pub open spec fn room_of(self, conn_id: u128) -> RoomModel {
        get(self.rooms, self.conns[conn_id].room_id->0)
    }

    /// The room of the connection needs a new king when it closes.
    pub open spec fn loses_king(self, conn_id: u128) -> bool {
        let room = self.room_of(conn_id);
        self.conns[conn_id].user_id == room.conf.king && room.others(conn_id).len() != 0
    }

    /// A connection that is in a room closes; `king` is the room's new king
    /// where it loses its king and others are left.
    pub open spec fn closed(self, conn_id: u128, king: UserId) -> ServerModel {
        if self.in_room(conn_id) {
            let conn = self.conns[conn_id];
            let room_id = conn.room_id->0;
            let before = get(self.rooms, room_id);
            let after = before.left(conn_id, conn.user_id, king);
            let left = ServerModel { rooms: put(self.rooms, room_id, after), ..self };
            let told = if after.users.len() == 0 && after.rank is None {
                left.deleted(room_id)
            } else if after.conf != before.conf {
                left.broadcasted(room_id, EventModel::Left { user: conn.user_id }).broadcasted(
                    room_id,
                    EventModel::Confed { conf: after.conf },
                )
            } else {
                left.broadcasted(room_id, EventModel::Left { user: conn.user_id })
            };
            ServerModel {
                conns: told.conns.remove(conn_id),
                streams: told.streams.remove(conn_id),
                ..told
            }.announced()
        } else {
            self
        }
    }

    /// A command of a connection failed: it is told, and cut if it is to be.
    pub open spec fn refused(self, conn_id: u128, message: Seq<char>, cut: bool) -> ServerModel {
        let told = self.dispatched(conn_id, EventModel::Error { message });
        if cut {
            told.kicked(conn_id)
        } else {
            told
        }
    }

    /// The result of a task goes out on the channel of its id.
    pub open spec fn resulted(self, id: Seq<char>, result: ResultModel) -> ServerModel {
        self.asked(ActionModel::PushResult { channel: result_channel(id), result })
    }

    /// Each room is told of the game that began in it.
    pub open spec fn all_told(self, started: Seq<(Seq<char>, GameModel)>) -> ServerModel
        decreases started.len(),
    {
        if started.len() == 0 {
            self
        } else {
            self.all_told(started.drop_last()).broadcasted(
                started.last().0,
                EventModel::Started { game: started.last().1 },
            )
        }
    }

    /// Each of the games ends.
    pub open spec fn all_completed(self, lost: Seq<(Seq<char>, Player, Seq<char>)>) -> ServerModel
        decreases lost.len(),
    {
        if lost.len() == 0 {
            self
        } else {
            self.all_completed(lost.drop_last()).completed(
                lost.last().0,
                lost.last().1,
                lost.last().2,
            )
        }
    }

    /// Each of the rooms is destroyed.
    pub open spec fn all_destroyed(self, closing: Seq<Seq<char>>) -> ServerModel
        decreases closing.len(),
    {
        if closing.len() == 0 {
            self
        } else {
            self.all_destroyed(closing.drop_last()).destroyed(closing.last())
        }
    }

    /// Every room that waits has waited for `dt` milliseconds more.
    pub open spec fn all_waited(self, dt: usize) -> ServerModel {
        ServerModel {
            rooms: self.rooms.map_values(|e: (Seq<char>, RoomModel)| (e.0, e.1.waited(dt))),
            ..self
        }
    }

    /// Every room holds the game that the rules of the game left in it.
    pub open spec fn all_played(self, answers: Seq<AnswerModel>) -> ServerModel {
        ServerModel {
            rooms: Seq::new(
                self.rooms.len(),
                |i: int| (self.rooms[i].0, self.rooms[i].1.played(answers[i])),
            ),
            ..self
        }
    }

    /// `answers` can be the answers of the rules of the game for the rooms.
    pub open spec fn admits(self, answers: Seq<AnswerModel>) -> bool {
        &&& answers.len() == self.rooms.len()
        &&& forall|i: int|
            0 <= i < self.rooms.len() ==> (#[trigger] self.rooms[i]).1.admits(answers[i])
    }

    /// Every room in which a game began according to `answers` is known by its id.
    pub open spec fn knows_started(self, answers: Seq<AnswerModel>) -> bool {
        forall|i: int|
            0 <= i < self.rooms.len() && answers[i].started is Some ==> holds(
                self.rooms,
                (#[trigger] self.rooms[i]).1.id,
            )
    }

    /// The games go on: all starts are told, all lost games end, and the
    /// closing rooms are destroyed, in this order.
    pub open spec fn went_on(self, answers: Seq<AnswerModel>, closing: Seq<Seq<char>>) -> ServerModel {
        self.all_played(answers).all_told(games_started(self.rooms, answers)).all_completed(
            games_lost(self.rooms, answers),
        ).all_destroyed(closing)
    }

    /// A tick, given what the rules of the game answered for each room: the
    /// rooms without a game wait, then the games go on. The rooms that close
    /// are those that had no time left when the tick began.
    pub open spec fn ticked(self, dt: usize, answers: Seq<AnswerModel>) -> ServerModel {
        self.all_waited(dt).went_on(answers, rooms_closing(self.rooms))
    }

    /// The countdown of no room leaves the numbers of this machine.
    pub open spec fn waits_fit(self, dt: usize) -> bool {
        forall|i: int| 0 <= i < self.rooms.len() ==> (#[trigger] self.rooms[i]).1.wait_fits(dt)
    }
}

} // verus!
