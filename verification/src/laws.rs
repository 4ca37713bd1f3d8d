//! What holds of the server across its operations.

use vstd::prelude::*;

use crate::action::{ActionModel, ServerEventModel};
use crate::model::{EventModel, GameModel, Player, ResultModel, TaskModel, User, UserId};
use crate::names::result_channel_is_injective;
use crate::outside::{hyphenated, id_digit};
use crate::room::{AnswerModel, RoomModel, RANK_TIME};
use crate::server::outcome_result;
use crate::state::{
    games_lost, games_started, invited, kept, lemma_played_wf, lemma_put_wf, lemma_waited_wf,
    lost_in, reached, rooms_closing, ServerModel,
};
use crate::stream::parsed_event;
use crate::table::{
    at, distinct, get, holds, lemma_at, lemma_filter_all, lemma_filter_distinct,
    lemma_filter_member, other_than, put,
};
use crate::task::{lobby_call, result_says};

verus! {

/// Who is told of an event that is broadcast: exactly the connections of the
/// room's users that have a stream.
pub proof fn broadcast_reaches_the_room(users: Seq<(u128, User)>, streams: Set<u128>, c: u128)
    ensures
        reached(users, streams).contains(c) <==> streams.contains(c) && exists|i: int|
            0 <= i < users.len() && (#[trigger] users[i]).1.conn_id == c,
{
    let p = |u: (u128, User)| streams.contains(u.1.conn_id);
    let f = users.filter(p);
    if reached(users, streams).contains(c) {
        let i = choose|i: int| 0 <= i < f.len() && reached(users, streams)[i] == c;
        assert(f.contains(f[i]));
        lemma_filter_member(users, p, f[i]);
        let j = choose|j: int| 0 <= j < users.len() && users[j] == f[i];
        assert(users[j].1.conn_id == c);
    }
    if streams.contains(c) && exists|i: int|
        0 <= i < users.len() && (#[trigger] users[i]).1.conn_id == c {
        let i = choose|i: int| 0 <= i < users.len() && (#[trigger] users[i]).1.conn_id == c;
        lemma_filter_member(users, p, users[i]);
        assert(users.contains(users[i]));
        let j = choose|j: int| 0 <= j < f.len() && f[j] == users[i];
        assert(reached(users, streams)[j] == c);
    }
}

/// Deleting a room removes it and the rooms under the keys of the invites to
/// it, and leaves every other room as it was.
pub proof fn deleting_spares_the_others(m: ServerModel, room_id: Seq<char>, key: Seq<char>)
    requires
        m.wf(),
    ensures
        holds(m.deleted(room_id).rooms, key) <==> holds(m.rooms, key) && key != room_id && !invited(
            m.invites,
            room_id,
            key,
        ),
        holds(m.deleted(room_id).rooms, key) ==> get(m.deleted(room_id).rooms, key) == get(
            m.rooms,
            key,
        ),
{
    let p = kept(m.invites, room_id);
    let rooms = m.rooms.filter(p);
    lemma_filter_distinct(m.rooms, p);
    if holds(rooms, key) {
        let i = at(rooms, key);
        assert(rooms.contains(rooms[i]));
        lemma_filter_member(m.rooms, p, rooms[i]);
        let j = choose|j: int| 0 <= j < m.rooms.len() && m.rooms[j] == rooms[i];
        assert(m.rooms[j].0 == key);
        lemma_at(m.rooms, j);
    }
    if holds(m.rooms, key) && p((key, get(m.rooms, key))) {
        let j = at(m.rooms, key);
        assert(m.rooms.contains(m.rooms[j]));
        lemma_filter_member(m.rooms, p, m.rooms[j]);
        let i = choose|i: int| 0 <= i < rooms.len() && rooms[i] == m.rooms[j];
        assert(rooms[i].0 == key);
    }
}

/// Deleting a room twice is deleting it once.
pub proof fn deleting_is_idempotent(m: ServerModel, room_id: Seq<char>)
    ensures
        m.deleted(room_id).deleted(room_id) == m.deleted(room_id),
{
    let p = kept(m.invites, room_id);
    let rooms = m.rooms.filter(p);
    assert forall|i: int| 0 <= i < rooms.len() implies p(#[trigger] rooms[i]) by {
        m.rooms.lemma_filter_pred(p, i);
    }
    lemma_filter_all(rooms, p);
}

/// A game ends once: when it has ended no game is on in its room, and ending
/// it again changes nothing.
pub proof fn a_game_ends_once(
    m: ServerModel,
    room_id: Seq<char>,
    loser: Player,
    cause: Seq<char>,
    loser2: Player,
    cause2: Seq<char>,
)
    requires
        m.wf(),
    ensures
        !m.completed(room_id, loser, cause).playing(room_id),
        m.completed(room_id, loser, cause).completed(room_id, loser2, cause2) == m.completed(
            room_id,
            loser,
            cause,
        ),
{
    if m.playing(room_id) {
        let i = at(m.rooms, room_id);
        assert(m.rooms[i].1.wf());
        lemma_put_wf(m, room_id, get(m.rooms, room_id).finished());
    }
}

/// A ranked room in which a game has ended waits for the next one: its seats
/// are free, it has its whole time again, and it does not close.
pub proof fn a_ranked_room_waits_anew(
    m: ServerModel,
    room_id: Seq<char>,
    loser: Player,
    cause: Seq<char>,
)
    requires
        m.wf(),
        m.playing(room_id),
        get(m.rooms, room_id).rank is Some,
    ensures
        ({
            let room = get(m.completed(room_id, loser, cause).rooms, room_id);
            &&& room.waiting()
            &&& !room.closing()
            &&& room.rank->0.black == UserId::Empty
            &&& room.rank->0.white == UserId::Empty
            &&& room.rank->0.time == RANK_TIME
        }),
{
    let i = at(m.rooms, room_id);
    assert(m.rooms[i].1.wf());
    lemma_put_wf(m, room_id, get(m.rooms, room_id).finished());
}

/// Ending a game changes no other room.
pub proof fn ending_spares_the_others(
    m: ServerModel,
    room_id: Seq<char>,
    loser: Player,
    cause: Seq<char>,
    key: Seq<char>,
)
    requires
        m.wf(),
        key != room_id,
    ensures
        holds(m.completed(room_id, loser, cause).rooms, key) == holds(m.rooms, key),
        holds(m.rooms, key) ==> get(m.completed(room_id, loser, cause).rooms, key) == get(
            m.rooms,
            key,
        ),
{
    if m.playing(room_id) {
        let i = at(m.rooms, room_id);
        assert(m.rooms[i].1.wf());
        lemma_put_wf(m, room_id, get(m.rooms, room_id).finished());
        lemma_put_spares(m.rooms, room_id, get(m.rooms, room_id).finished(), key);
    }
}

proof fn lemma_put_spares(
    rooms: Seq<(Seq<char>, RoomModel)>,
    room_id: Seq<char>,
    room: RoomModel,
    key: Seq<char>,
)
    requires
        distinct(rooms),
        distinct(put(rooms, room_id, room)),
        holds(rooms, room_id),
        key != room_id,
    ensures
        holds(put(rooms, room_id, room), key) == holds(rooms, key),
        holds(rooms, key) ==> get(put(rooms, room_id, room), key) == get(rooms, key),
{
    let after = put(rooms, room_id, room);
    if holds(rooms, key) {
        let j = at(rooms, key);
        assert(after[j] == rooms[j]);
        lemma_at(after, j);
    }
    if holds(after, key) {
        let j = at(after, key);
        assert(rooms[j].0 == key);
    }
}

/// The room of a connection that closes stays exactly when it is ranked or
/// others are left; it is then the room that the user has left.
pub proof fn an_empty_room_goes(m: ServerModel, conn_id: u128, king: UserId)
    requires
        m.wf(),
        m.in_room(conn_id),
    ensures
        ({
            let room_id = m.conns[conn_id].room_id->0;
            let room = m.room_of(conn_id);
            let after = m.closed(conn_id, king);
            &&& holds(after.rooms, room_id) <==> {
                room.rank is Some || room.others(conn_id).len() != 0
            }
            &&& holds(after.rooms, room_id) ==> get(after.rooms, room_id) == room.left(
                conn_id,
                m.conns[conn_id].user_id,
                king,
            )
        }),
{
    let room_id = m.conns[conn_id].room_id->0;
    let room = m.room_of(conn_id);
    let left = room.left(conn_id, m.conns[conn_id].user_id, king);
    lemma_room_of_wf(m, conn_id);
    lemma_filter_distinct(room.users, other_than(conn_id));
    lemma_put_wf(m, room_id, left);
    let s = ServerModel { rooms: put(m.rooms, room_id, left), ..m };
    deleting_spares_the_others(s, room_id, room_id);
}

proof fn lemma_room_of_wf(m: ServerModel, conn_id: u128)
    requires
        m.wf(),
        m.in_room(conn_id),
    ensures
        m.room_of(conn_id).wf(),
{
    let i = at(m.rooms, m.conns[conn_id].room_id->0);
    assert(m.rooms[i].1.wf());
}

/// A room that loses its king is ruled by one of those who stay.
pub proof fn the_new_king_is_in_the_room(m: ServerModel, conn_id: u128, king: UserId)
    requires
        m.wf(),
        m.in_room(conn_id),
        m.loses_king(conn_id),
        m.room_of(conn_id).stays(conn_id, king),
    ensures
        ({
            let room_id = m.conns[conn_id].room_id->0;
            let after = m.closed(conn_id, king);
            &&& holds(after.rooms, room_id)
            &&& get(after.rooms, room_id).conf.king == king
            &&& get(after.rooms, room_id).exists_user(king)
        }),
{
    let room_id = m.conns[conn_id].room_id->0;
    let room = m.room_of(conn_id);
    let left = room.left(conn_id, m.conns[conn_id].user_id, king);
    lemma_room_of_wf(m, conn_id);
    lemma_filter_distinct(room.users, other_than(conn_id));
    lemma_put_wf(m, room_id, left);
    let i = choose|i: int|
        0 <= i < room.others(conn_id).len() && (#[trigger] room.others(conn_id)[i]).1.user_id
            == king;
    assert(left.users[i].1.user_id == king);
}

/// The king stays king when someone else leaves.
pub proof fn the_king_stays(room: RoomModel, conn_id: u128, user_id: UserId, king: UserId)
    requires
        user_id != room.conf.king,
    ensures
        room.left(conn_id, user_id, king).conf.king == room.conf.king,
{
}

/// Who leaves during a game keeps the seats; who leaves otherwise frees them.
pub proof fn seats_are_kept_during_a_game(
    room: RoomModel,
    conn_id: u128,
    user_id: UserId,
    king: UserId,
)
    ensures
        room.game is Some ==> {
            &&& room.left(conn_id, user_id, king).conf.black == room.conf.black
            &&& room.left(conn_id, user_id, king).conf.white == room.conf.white
        },
        room.game is None && user_id != UserId::Empty ==> {
            &&& room.left(conn_id, user_id, king).conf.black != user_id
            &&& room.left(conn_id, user_id, king).conf.white != user_id
        },
{
}

/// Who leaves a room is no longer among its users, and all others are.
pub proof fn leaving_takes_out_one(room: RoomModel, conn_id: u128, c: u128)
    requires
        room.wf(),
    ensures
        holds(room.others(conn_id), c) <==> holds(room.users, c) && c != conn_id,
        holds(room.others(conn_id), c) ==> get(room.others(conn_id), c) == get(room.users, c),
{
    let p = other_than::<u128, User>(conn_id);
    let others = room.others(conn_id);
    lemma_filter_distinct(room.users, p);
    if holds(others, c) {
        let i = at(others, c);
        assert(others.contains(others[i]));
        lemma_filter_member(room.users, p, others[i]);
        let j = choose|j: int| 0 <= j < room.users.len() && room.users[j] == others[i];
        assert(room.users[j].0 == c);
        lemma_at(room.users, j);
    }
    if holds(room.users, c) && c != conn_id {
        let j = at(room.users, c);
        assert(room.users.contains(room.users[j]));
        lemma_filter_member(room.users, p, room.users[j]);
        let i = choose|i: int| 0 <= i < others.len() && others[i] == room.users[j];
        assert(others[i].0 == c);
    }
}

/// A connection that is in a room is forgotten when it closes, and no other is.
pub proof fn closing_forgets_one(m: ServerModel, conn_id: u128, king: UserId)
    requires
        m.in_room(conn_id),
    ensures
        m.closed(conn_id, king).conns == m.conns.remove(conn_id),
        m.closed(conn_id, king).streams == m.streams.remove(conn_id),
{
}

/// Closing twice is closing once.
pub proof fn closing_is_idempotent(m: ServerModel, conn_id: u128, king: UserId, king2: UserId)
    ensures
        m.closed(conn_id, king).closed(conn_id, king2) == m.closed(conn_id, king),
{
}

/// A connection that has just come is in no room, so that its closing changes
/// nothing.
pub proof fn a_new_connection_is_in_no_room(m: ServerModel, conn_id: u128, king: UserId)
    ensures
        !m.connected(conn_id).in_room(conn_id),
        m.connected(conn_id).closed(conn_id, king) == m.connected(conn_id),
{
}

/// Every connection is known under its own id, and the known connections are
/// those that have a stream.
pub open spec fn paired(m: ServerModel) -> bool {
    &&& m.streams =~= m.conns.dom()
    &&& forall|c: u128| #[trigger] m.conns.contains_key(c) ==> m.conns[c].conn_id == c
}

/// Connections and streams come and go together.
pub proof fn streams_belong_to_connections(
    m: ServerModel,
    conn_id: u128,
    king: UserId,
    dt: usize,
    answers: Seq<AnswerModel>,
)
    requires
        paired(m),
    ensures
        paired(m.connected(conn_id)),
        paired(m.closed(conn_id, king)),
        paired(m.ticked(dt, answers)),
{
    time_keeps_the_rest(m, dt, answers);
    let a = m.connected(conn_id);
    assert(a.streams =~= a.conns.dom());
    let b = m.closed(conn_id, king);
    assert(b.streams =~= b.conns.dom());
}

/// What is to be done outside is only ever added to, at the end.
pub proof fn what_is_to_be_done_stays(
    m: ServerModel,
    conn_id: u128,
    king: UserId,
    room_id: Seq<char>,
    event: EventModel,
    loser: Player,
    text: Seq<char>,
    cut: bool,
    result: ResultModel,
)
    ensures
        m.outbox.is_prefix_of(m.connected(conn_id).outbox),
        m.outbox.is_prefix_of(m.dispatched(conn_id, event).outbox),
        m.outbox.is_prefix_of(m.kicked(conn_id).outbox),
        m.outbox.is_prefix_of(m.broadcasted(room_id, event).outbox),
        m.outbox.is_prefix_of(m.destroyed(room_id).outbox),
        m.outbox.is_prefix_of(m.deleted(room_id).outbox),
        m.outbox.is_prefix_of(m.announced().outbox),
        m.outbox.is_prefix_of(m.completed(room_id, loser, text).outbox),
        m.outbox.is_prefix_of(m.refused(conn_id, text, cut).outbox),
        m.outbox.is_prefix_of(m.resulted(text, result).outbox),
        m.outbox.is_prefix_of(m.closed(conn_id, king).outbox),
{
}

/// `b` has everything of `a` but for its games, its waiting times and what is
/// to be done outside, to which it only adds.
pub open spec fn keeps_the_rest(a: ServerModel, b: ServerModel) -> bool {
    &&& b.addr == a.addr
    &&& b.real_addr == a.real_addr
    &&& b.name == a.name
    &&& b.redis == a.redis
    &&& b.invites == a.invites
    &&& b.conns == a.conns
    &&& b.streams == a.streams
    &&& a.outbox.is_prefix_of(b.outbox)
    &&& b.rooms.len() == a.rooms.len()
    &&& forall|i: int|
        0 <= i < a.rooms.len() ==> {
            &&& (#[trigger] b.rooms[i]).0 == a.rooms[i].0
            &&& b.rooms[i].1.id == a.rooms[i].1.id
            &&& b.rooms[i].1.users == a.rooms[i].1.users
            &&& b.rooms[i].1.conf == a.rooms[i].1.conf
            &&& b.rooms[i].1.rank is Some <==> a.rooms[i].1.rank is Some
        }
}

/// The passing of time takes nobody out of a room and changes nothing but
/// games and waiting times; what was to be done before stays to be done first.
pub proof fn time_keeps_the_rest(m: ServerModel, dt: usize, answers: Seq<AnswerModel>)
    ensures
        keeps_the_rest(m, m.ticked(dt, answers)),
{
    let w = m.all_waited(dt);
    let p = w.all_played(answers);
    assert(keeps_the_rest(m, p));
    let started = games_started(w.rooms, answers);
    let lost = games_lost(w.rooms, answers);
    lemma_told_keeps(p, started);
    lemma_completed_keeps(p.all_told(started), lost);
    lemma_destroyed_keeps(
        p.all_told(started).all_completed(lost),
        rooms_closing(m.rooms),
    );
}

proof fn lemma_keeps_trans(a: ServerModel, b: ServerModel, c: ServerModel)
    requires
        keeps_the_rest(a, b),
        keeps_the_rest(b, c),
    ensures
        keeps_the_rest(a, c),
{
    assert forall|i: int| 0 <= i < a.outbox.len() implies a.outbox[i] == c.outbox[i] by {
        assert(b.outbox[i] == c.outbox[i]);
    }
    assert(a.outbox =~= c.outbox.subrange(0, a.outbox.len() as int));
    assert forall|i: int| 0 <= i < a.rooms.len() implies {
        &&& (#[trigger] c.rooms[i]).0 == a.rooms[i].0
        &&& c.rooms[i].1.id == a.rooms[i].1.id
        &&& c.rooms[i].1.users == a.rooms[i].1.users
        &&& c.rooms[i].1.conf == a.rooms[i].1.conf
        &&& c.rooms[i].1.rank is Some <==> a.rooms[i].1.rank is Some
    } by {
        assert(b.rooms[i].0 == a.rooms[i].0);
    }
}

proof fn lemma_told_keeps(m: ServerModel, started: Seq<(Seq<char>, GameModel)>)
    ensures
        keeps_the_rest(m, m.all_told(started)),
    decreases started.len(),
{
    if started.len() > 0 {
        lemma_told_keeps(m, started.drop_last());
        lemma_keeps_trans(m, m.all_told(started.drop_last()), m.all_told(started));
    }
}

proof fn lemma_completed_keeps(m: ServerModel, lost: Seq<(Seq<char>, Player, Seq<char>)>)
    ensures
        keeps_the_rest(m, m.all_completed(lost)),
    decreases lost.len(),
{
    if lost.len() > 0 {
        let b = m.all_completed(lost.drop_last());
        let room_id = lost.last().0;
        lemma_completed_keeps(m, lost.drop_last());
        if b.playing(room_id) {
            let i = at(b.rooms, room_id);
            assert(b.rooms[i].0 == room_id);
        }
        assert(keeps_the_rest(b, m.all_completed(lost)));
        lemma_keeps_trans(m, b, m.all_completed(lost));
    }
}

proof fn lemma_destroyed_keeps(m: ServerModel, closing: Seq<Seq<char>>)
    ensures
        keeps_the_rest(m, m.all_destroyed(closing)),
    decreases closing.len(),
{
    if closing.len() > 0 {
        lemma_destroyed_keeps(m, closing.drop_last());
        lemma_keeps_trans(m, m.all_destroyed(closing.drop_last()), m.all_destroyed(closing));
    }
}

/// A game that is lost is over when the tick is: no room known by its own id
/// goes on with a game that has been lost.
pub proof fn lost_games_are_over(m: ServerModel, dt: usize, answers: Seq<AnswerModel>, i: int)
    requires
        m.wf(),
        m.admits(answers),
        0 <= i < m.rooms.len(),
        m.rooms[i].1.id == m.rooms[i].0,
        lost_in(answers[i]) is Some,
    ensures
        m.ticked(dt, answers).rooms[i].1.game is None,
{
    let w = m.all_waited(dt);
    let p = w.all_played(answers);
    let started = games_started(w.rooms, answers);
    let lost = games_lost(w.rooms, answers);
    let told = p.all_told(started);
    lemma_told_rooms(p, started);
    lemma_destroyed_rooms(told.all_completed(lost), rooms_closing(m.rooms));
    assert(distinct(told.rooms)) by {
        lemma_waited_wf(m, dt);
        lemma_played_wf(w, answers);
    }
    let l = lost_in(answers[i])->0;
    let z = w.rooms.zip_with(answers);
    assert(z[i] == (w.rooms[i], answers[i]));
    lemma_filter_map_has(
        z,
        |e: ((Seq<char>, RoomModel), AnswerModel)|
            match lost_in(e.1) {
                Some(l) => Some((e.0.1.id, l.0, l.1)),
                None => None,
            },
        i,
    );
    assert(lost.contains((m.rooms[i].0, l.0, l.1)));
    let k = choose|k: int| 0 <= k < lost.len() && lost[k] == (m.rooms[i].0, l.0, l.1);
    assert(told.rooms[i].0 == lost[k].0);
    lemma_completed_over(told, lost, i);
}

/// Telling of games changes no room.
proof fn lemma_told_rooms(m: ServerModel, started: Seq<(Seq<char>, GameModel)>)
    ensures
        m.all_told(started).rooms == m.rooms,
    decreases started.len(),
{
    if started.len() > 0 {
        lemma_told_rooms(m, started.drop_last());
    }
}

/// Destroying a room changes no room.
proof fn lemma_destroyed_rooms(m: ServerModel, closing: Seq<Seq<char>>)
    ensures
        m.all_destroyed(closing).rooms == m.rooms,
    decreases closing.len(),
{
    if closing.len() > 0 {
        lemma_destroyed_rooms(m, closing.drop_last());
    }
}

proof fn lemma_completed_over(
    m: ServerModel,
    lost: Seq<(Seq<char>, Player, Seq<char>)>,
    i: int,
)
    requires
        distinct(m.rooms),
        0 <= i < m.rooms.len(),
    ensures
        m.rooms[i].1.game is None ==> m.all_completed(lost).rooms[i].1.game is None,
        (exists|k: int| 0 <= k < lost.len() && (#[trigger] lost[k]).0 == m.rooms[i].0)
            ==> m.all_completed(lost).rooms[i].1.game is None,
    decreases lost.len(),
{
    if lost.len() > 0 {
        let rest = lost.drop_last();
        let b = m.all_completed(rest);
        lemma_completed_over(m, rest, i);
        lemma_completed_keeps(m, rest);
        assert(distinct(b.rooms)) by {
            assert forall|x: int, y: int|
                0 <= x < b.rooms.len() && 0 <= y < b.rooms.len() && x != y implies (
            #[trigger] b.rooms[x]).0 != (#[trigger] b.rooms[y]).0 by {
                assert(m.rooms[x].0 != m.rooms[y].0);
            }
        }
        assert(b.rooms[i].0 == m.rooms[i].0);
        lemma_at(b.rooms, i);
        if exists|k: int| 0 <= k < lost.len() && (#[trigger] lost[k]).0 == m.rooms[i].0 {
            let k = choose|k: int| 0 <= k < lost.len() && (#[trigger] lost[k]).0 == m.rooms[i].0;
            if k < rest.len() {
                assert(rest[k].0 == m.rooms[i].0);
            }
        }
    }
}

proof fn lemma_filter_map_has<T, U>(s: Seq<T>, f: spec_fn(T) -> Option<U>, i: int)
    requires
        0 <= i < s.len(),
        f(s[i]) is Some,
    ensures
        s.filter_map(f).contains(f(s[i])->0),
    decreases s.len(),
{
    let rest = s.drop_last();
    let out = s.filter_map(f);
    if i < rest.len() {
        lemma_filter_map_has(rest, f, i);
        let k = choose|k: int|
            0 <= k < rest.filter_map(f).len() && rest.filter_map(f)[k] == f(rest[i])->0;
        assert(out[k] == f(s[i])->0);
    } else {
        assert(out[out.len() - 1] == f(s[i])->0);
    }
}

/// A room after `n` waits of `dt` milliseconds each.
pub open spec fn waited_times(room: RoomModel, dt: usize, n: nat) -> RoomModel
    decreases n,
{
    if n == 0 {
        room
    } else {
        waited_times(room, dt, (n - 1) as nat).waited(dt)
    }
}

/// A ranked room in which no game starts closes once its time has run out,
/// and not before.
pub proof fn waiting_runs_out(room: RoomModel, dt: usize, n: nat)
    requires
        room.waiting(),
        0 < dt <= isize::MAX,
    ensures
        waited_times(room, dt, n).waiting(),
        waited_times(room, dt, n).closing() <==> room.rank->0.time <= n * dt,
{
    lemma_waited_times(room, dt, n);
}

proof fn lemma_waited_times(room: RoomModel, dt: usize, n: nat)
    requires
        room.waiting(),
        0 < dt <= isize::MAX,
    ensures
        waited_times(room, dt, n).waiting(),
        waited_times(room, dt, n).closing() <==> room.rank->0.time <= n * dt,
        room.rank->0.time > n * dt ==> waited_times(room, dt, n).rank->0.time == room.rank->0.time
            - n * dt,
    decreases n,
{
    if n > 0 {
        let k = (n - 1) as nat;
        lemma_waited_times(room, dt, k);
        assert(n * dt == k * dt + dt) by (nonlinear_arith)
            requires
                n == k + 1,
        ;
    }
}

/// The waiting time of a room does not run while a game is on.
pub proof fn a_game_stops_the_clock(room: RoomModel, dt: usize)
    requires
        room.game is Some,
    ensures
        room.waited(dt) == room,
        !room.closing(),
{
}

/// Whoever asks for a task is told what came of it: the result goes to the
/// channel on which it is awaited, and says its value, or the message of its
/// error if it has one.
pub proof fn a_result_reaches_who_asked(
    m: ServerModel,
    id: Seq<char>,
    task: TaskModel,
    result: ResultModel,
)
    ensures
        m.resulted(id, result).outbox == m.outbox.push(
            ActionModel::PushResult { channel: lobby_call(id, task).channel, result },
        ),
        match result.error {
            Some(message) => result_says(result) == Err::<Seq<char>, Seq<char>>(message),
            None => result_says(result) == Ok::<Seq<char>, Seq<char>>(result.value),
        },
{
}

/// What a task came to is what its result says.
pub proof fn a_result_says_the_outcome(outcome: Result<String, String>)
    ensures
        match outcome {
            Ok(value) => result_says(outcome_result(outcome)) == Ok::<Seq<char>, Seq<char>>(value@),
            Err(message) => result_says(outcome_result(outcome)) == Err::<Seq<char>, Seq<char>>(
                message@,
            ),
        },
{
}

/// A client with a stream whose line is no command is told so, and nothing else
/// comes of it.
pub proof fn a_bad_line_is_answered(m: ServerModel, conn_id: u128)
    requires
        m.streams.contains(conn_id),
    ensures
        parsed_event(conn_id, None) matches ServerEventModel::Dispatch { conn_id: c, event }
            && m.dispatched(c, event) == m.asked(
            ActionModel::Send {
                conn_id,
                event: EventModel::Error { message: "json format error"@ },
            },
        ),
{
}

/// A client with a stream whose command failed is told why, and is cut after
/// that if it is to be.
pub proof fn a_refused_command_is_answered(
    m: ServerModel,
    conn_id: u128,
    message: Seq<char>,
    cut: bool,
)
    requires
        m.streams.contains(conn_id),
    ensures
        m.refused(conn_id, message, cut).outbox == m.outbox + if cut {
            seq![
                ActionModel::Send { conn_id, event: EventModel::Error { message } },
                ActionModel::Shutdown { conn_id },
            ]
        } else {
            seq![ActionModel::Send { conn_id, event: EventModel::Error { message } }]
        },
{
}

/// The result of one task is never awaited under the id of another.
pub proof fn results_are_not_mixed_up(a: u128, b: u128, task: TaskModel, task2: TaskModel)
    requires
        a != b,
    ensures
        lobby_call(hyphenated(a), task).channel != lobby_call(hyphenated(b), task2).channel,
{
    if hyphenated(a) == hyphenated(b) {
        lemma_hyphenated(a, b);
    }
    result_channel_is_injective(hyphenated(a), hyphenated(b));
}

/// The place of the `k`-th digit in the text of an identifier.
spec fn place(k: int) -> int {
    if k < 8 {
        k
    } else if k < 12 {
        k + 1
    } else if k < 16 {
        k + 2
    } else if k < 20 {
        k + 3
    } else {
        k + 4
    }
}

proof fn lemma_place(id: u128, k: int)
    requires
        0 <= k < 32,
    ensures
        hyphenated(id)[place(k)] == id_digit(id, k),
{
}

proof fn lemma_digit(a: u128, b: u128, k: int)
    requires
        0 <= k < 32,
        id_digit(a, k) == id_digit(b, k),
    ensures
        (a >> ((4 * (31 - k)) as u128)) & 0xf == (b >> ((4 * (31 - k)) as u128)) & 0xf,
{
    let x = (a >> ((4 * (31 - k)) as u128)) & 0xf;
    let y = (b >> ((4 * (31 - k)) as u128)) & 0xf;
    let s = (4 * (31 - k)) as u128;
    assert((a >> s) & 0xf < 16) by (bit_vector);
    assert((b >> s) & 0xf < 16) by (bit_vector);
}

/// Identifiers with the same text agree from their first digit to their `k`-th.
proof fn lemma_hyphenated_upto(a: u128, b: u128, k: int)
    requires
        hyphenated(a) == hyphenated(b),
        0 <= k < 32,
    ensures
        a >> ((4 * (31 - k)) as u128) == b >> ((4 * (31 - k)) as u128),
    decreases k,
{
    lemma_place(a, k);
    lemma_place(b, k);
    lemma_digit(a, b, k);
    let s = (4 * (31 - k)) as u128;
    if k == 0 {
        assert(a >> 124u128 == (a >> 124u128) & 0xf) by (bit_vector);
        assert(b >> 124u128 == (b >> 124u128) & 0xf) by (bit_vector);
    } else {
        lemma_hyphenated_upto(a, b, k - 1);
        let u = (4 * (32 - k)) as u128;
        assert(a >> s == b >> s) by (bit_vector)
            requires
                s <= 120,
                u == s + 4,
                a >> u == b >> u,
                (a >> s) & 0xf == (b >> s) & 0xf,
        ;
    }
}

/// Identifiers with the same text are the same.
proof fn lemma_hyphenated(a: u128, b: u128)
    requires
        hyphenated(a) == hyphenated(b),
    ensures
        a == b,
{
    lemma_hyphenated_upto(a, b, 31);
    assert(a == b) by (bit_vector)
        requires
            a >> 0u128 == b >> 0u128,
    ;
}

} // verus!
