//! What the operations of the server do, said of its rooms, users, connections
//! and streams, and of the actions that they add to the outbox.

use vstd::prelude::*;

use crate::action::{ActionModel, EndingModel};
use crate::listing::{entries, lemma_filter_lists, lemma_lists_same, lists};
use crate::model::{
    CompleteGameResult, ConnectionModel, EventModel, InviteModel, Player, Rank, ResultModel,
    TaskModel, User, UserId,
};
use crate::room::RoomModel;
use crate::room_laws::{lemma_others_empty, lemma_others_lists};
use crate::state::{
    invited, invites_user, kept, lemma_put_wf, reached, sends, shutdowns, ServerModel,
};
use crate::table::{
    at, get, holds, lemma_at, lemma_filter_distinct, lemma_filter_twice, other_than, put,
};

verus! {

/// The state is well-formed exactly when no two rooms and no two invites have
/// the same key and no connection is in a room twice.
pub proof fn well_formed_is_without_doubles(m: ServerModel)
    ensures
        m.wf() <==> {
            &&& forall|i: int, j: int|
                0 <= i < j < m.rooms.len() ==> (#[trigger] m.rooms[i]).0 != (
                #[trigger] m.rooms[j]).0
            &&& forall|i: int, j: int|
                0 <= i < j < m.invites.len() ==> (#[trigger] m.invites[i]).0 != (
                #[trigger] m.invites[j]).0
            &&& forall|r: int, i: int, j: int|
                0 <= r < m.rooms.len() && 0 <= i < j < m.rooms[r].1.users.len() ==> (
                #[trigger] m.rooms[r].1.users[i]).0 != (#[trigger] m.rooms[r].1.users[j]).0
        },
{
    if forall|r: int, i: int, j: int|
        0 <= r < m.rooms.len() && 0 <= i < j < m.rooms[r].1.users.len() ==> (
        #[trigger] m.rooms[r].1.users[i]).0 != (#[trigger] m.rooms[r].1.users[j]).0 {
        assert forall|r: int| 0 <= r < m.rooms.len() implies (#[trigger] m.rooms[r]).1.wf() by {
            let users = m.rooms[r].1.users;
            assert forall|i: int, j: int|
                0 <= i < users.len() && 0 <= j < users.len() && i != j implies (
            #[trigger] users[i]).0 != (#[trigger] users[j]).0 by {
                if i < j {
                    assert(m.rooms[r].1.users[i].0 != m.rooms[r].1.users[j].0);
                } else {
                    assert(m.rooms[r].1.users[j].0 != m.rooms[r].1.users[i].0);
                }
            }
        }
    }
    if m.wf() {
        assert forall|r: int, i: int, j: int|
            0 <= r < m.rooms.len() && 0 <= i < j < m.rooms[r].1.users.len() implies (
        #[trigger] m.rooms[r].1.users[i]).0 != (#[trigger] m.rooms[r].1.users[j]).0 by {
            assert(m.rooms[r].1.wf());
        }
    }
}

/// A new server has its addresses, its name and its task store, and nothing else.
pub proof fn a_new_server_has_nobody(
    addr: Seq<char>,
    name: Seq<char>,
    real_addr: Seq<char>,
    redis: redis::Client,
)
    ensures
        ({
            let m = ServerModel::empty(addr, name, real_addr, redis);
            &&& m.addr == addr
            &&& m.name == name
            &&& m.real_addr == real_addr
            &&& m.redis == redis
            &&& m.rooms.len() == 0
            &&& m.invites.len() == 0
            &&& m.conns =~= Map::empty()
            &&& m.streams =~= Set::empty()
            &&& m.outbox.len() == 0
        }),
{
}

/// A connection that comes is known under its id as that of nobody in no room,
/// and can be written to; all else stays.
pub proof fn connecting_adds_one_connection(m: ServerModel, conn_id: u128, c: u128)
    ensures
        m.connected(conn_id).conns.contains_key(conn_id),
        m.connected(conn_id).conns[conn_id] == (ConnectionModel {
            conn_id,
            user_id: UserId::Empty,
            room_id: None,
        }),
        m.connected(conn_id).streams.contains(conn_id),
        c != conn_id ==> {
            &&& m.connected(conn_id).conns.contains_key(c) == m.conns.contains_key(c)
            &&& m.conns.contains_key(c) ==> m.connected(conn_id).conns[c] == m.conns[c]
            &&& m.connected(conn_id).streams.contains(c) == m.streams.contains(c)
        },
        m.connected(conn_id) == (ServerModel {
            conns: m.connected(conn_id).conns,
            streams: m.connected(conn_id).streams,
            ..m
        }),
{
}

/// An event goes to its connection if that has a stream, and nowhere else; a
/// cut likewise. Nothing else changes.
pub proof fn one_connection_is_reached_by_its_stream(
    m: ServerModel,
    conn_id: u128,
    event: EventModel,
)
    ensures
        m.streams.contains(conn_id) ==> m.dispatched(conn_id, event) == (ServerModel {
            outbox: m.outbox + seq![ActionModel::Send { conn_id, event }],
            ..m
        }),
        !m.streams.contains(conn_id) ==> m.dispatched(conn_id, event) == m,
        m.streams.contains(conn_id) ==> m.kicked(conn_id) == (ServerModel {
            outbox: m.outbox + seq![ActionModel::Shutdown { conn_id }],
            ..m
        }),
        !m.streams.contains(conn_id) ==> m.kicked(conn_id) == m,
{
    assert(m.outbox.push(ActionModel::Send { conn_id, event }) =~= m.outbox + seq![
        ActionModel::Send { conn_id, event },
    ]);
    assert(m.outbox.push(ActionModel::Shutdown { conn_id }) =~= m.outbox + seq![
        ActionModel::Shutdown { conn_id },
    ]);
}

/// A broadcast sends the event once to each user of the room that has a stream,
/// in the order of the users, and changes nothing else.
pub proof fn a_broadcast_is_one_send_per_user(
    m: ServerModel,
    i: int,
    event: EventModel,
) -> (to: Seq<int>)
    requires
        m.wf(),
        0 <= i < m.rooms.len(),
    ensures
        ({
            let users = m.rooms[i].1.users;
            &&& lists(
                to,
                users.len() as int,
                |k: int| m.streams.contains(users[k].1.conn_id),
            )
            &&& m.broadcasted(m.rooms[i].0, event) == (ServerModel {
                outbox: m.outbox + Seq::new(
                    to.len(),
                    |k: int| ActionModel::Send { conn_id: users[to[k]].1.conn_id, event },
                ),
                ..m
            })
        }),
{
    lemma_at(m.rooms, i);
    let users = m.rooms[i].1.users;
    let to = lemma_reached_lists(users, m.streams);
    assert(sends(reached(users, m.streams), event) =~= Seq::new(
        to.len(),
        |k: int| ActionModel::Send { conn_id: users[to[k]].1.conn_id, event },
    ));
    to
}

/// What a broadcast adds to the outbox holds a send to a connection exactly
/// when that has a stream and a user of the room is on it, and holds nothing
/// but sends of that event.
pub proof fn a_broadcast_reaches_every_user_and_nobody_else(
    m: ServerModel,
    i: int,
    event: EventModel,
    c: u128,
)
    requires
        m.wf(),
        0 <= i < m.rooms.len(),
    ensures
        ({
            let added = m.broadcasted(m.rooms[i].0, event).outbox.skip(m.outbox.len() as int);
            &&& added.contains(ActionModel::Send { conn_id: c, event }) <==> m.streams.contains(c)
                && exists|k: int|
                0 <= k < m.rooms[i].1.users.len() && (#[trigger] m.rooms[i].1.users[k]).1.conn_id
                    == c
            &&& forall|k: int|
                0 <= k < added.len() ==> (#[trigger] added[k]) is Send && added[k]->Send_event
                    == event
        }),
{
    let users = m.rooms[i].1.users;
    let after = m.broadcasted(m.rooms[i].0, event);
    let added = after.outbox.skip(m.outbox.len() as int);
    let to = a_broadcast_is_one_send_per_user(m, i, event);
    assert(added =~= Seq::new(
        to.len(),
        |k: int| ActionModel::Send { conn_id: users[to[k]].1.conn_id, event },
    ));
    let action = ActionModel::Send { conn_id: c, event };
    if added.contains(action) {
        let k = choose|k: int| 0 <= k < added.len() && added[k] == action;
        assert((|k: int| m.streams.contains(users[k].1.conn_id))(to[k]));
        assert(users[to[k]].1.conn_id == c);
    }
    if m.streams.contains(c) && exists|k: int|
        0 <= k < users.len() && (#[trigger] users[k]).1.conn_id == c {
        let u = choose|k: int| 0 <= k < users.len() && (#[trigger] users[k]).1.conn_id == c;
        assert((|k: int| m.streams.contains(users[k].1.conn_id))(u));
        let k = choose|k: int| 0 <= k < to.len() && to[k] == u;
        assert(added[k] == action);
    }
}

/// Destroying a room cuts each of its users that has a stream once, in the
/// order of the users, and changes nothing else.
pub proof fn destroying_is_one_cut_per_user(m: ServerModel, i: int) -> (to: Seq<int>)
    requires
        m.wf(),
        0 <= i < m.rooms.len(),
    ensures
        ({
            let users = m.rooms[i].1.users;
            &&& lists(
                to,
                users.len() as int,
                |k: int| m.streams.contains(users[k].1.conn_id),
            )
            &&& m.destroyed(m.rooms[i].0) == (ServerModel {
                outbox: m.outbox + Seq::new(
                    to.len(),
                    |k: int| ActionModel::Shutdown { conn_id: users[to[k]].1.conn_id },
                ),
                ..m
            })
        }),
{
    lemma_at(m.rooms, i);
    let users = m.rooms[i].1.users;
    let to = lemma_reached_lists(users, m.streams);
    assert(shutdowns(reached(users, m.streams)) =~= Seq::new(
        to.len(),
        |k: int| ActionModel::Shutdown { conn_id: users[to[k]].1.conn_id },
    ));
    to
}

/// Destroying a room that is not known changes nothing.
pub proof fn destroying_nothing_does_nothing(m: ServerModel, room_id: Seq<char>)
    requires
        forall|i: int| 0 <= i < m.rooms.len() ==> (#[trigger] m.rooms[i]).0 != room_id,
    ensures
        m.destroyed(room_id) == m,
{
}

proof fn lemma_reached_lists(users: Seq<(u128, User)>, streams: Set<u128>) -> (to: Seq<int>)
    ensures
        lists(to, users.len() as int, |k: int| streams.contains(users[k].1.conn_id)),
        reached(users, streams) == Seq::new(to.len(), |k: int| users[to[k]].1.conn_id),
{
    let p = |u: (u128, User)| streams.contains(u.1.conn_id);
    let to = lemma_filter_lists(users, p);
    lemma_lists_same(
        to,
        users.len() as int,
        |k: int| p(users[k]),
        |k: int| streams.contains(users[k].1.conn_id),
    );
    assert(reached(users, streams) =~= Seq::new(to.len(), |k: int| users[to[k]].1.conn_id));
    to
}

/// Deleting a room leaves exactly the rooms that have neither its key nor the
/// key of an invite to it, as they were and in their order, and changes nothing
/// else.
pub proof fn deleting_leaves_all_other_rooms(m: ServerModel, room_id: Seq<char>) -> (left: Seq<int>)
    ensures
        lists(
            left,
            m.rooms.len() as int,
            |i: int|
                m.rooms[i].0 != room_id && forall|k: int|
                    0 <= k < m.invites.len() && (#[trigger] m.invites[k]).1.room_id == room_id
                        ==> m.invites[k].0 != m.rooms[i].0,
        ),
        m.deleted(room_id) == (ServerModel { rooms: entries(m.rooms, left), ..m }),
{
    let p = kept(m.invites, room_id);
    let left = lemma_filter_lists(m.rooms, p);
    let q = |i: int|
        m.rooms[i].0 != room_id && forall|k: int|
            0 <= k < m.invites.len() && (#[trigger] m.invites[k]).1.room_id == room_id
                ==> m.invites[k].0 != m.rooms[i].0;
    assert forall|i: int| 0 <= i < m.rooms.len() implies #[trigger] q(i) == p(m.rooms[i]) by {
        let key = m.rooms[i].0;
        if !q(i) && key != room_id {
            let k = choose|k: int|
                0 <= k < m.invites.len() && (#[trigger] m.invites[k]).1.room_id == room_id
                    && m.invites[k].0 == key;
            assert(invited(m.invites, room_id, key));
        }
        if invited(m.invites, room_id, key) {
            let k = choose|k: int|
                0 <= k < m.invites.len() && (#[trigger] m.invites[k]).0 == key
                    && m.invites[k].1.room_id == room_id;
            assert(m.invites[k].1.room_id == room_id);
        }
    }
    lemma_lists_same(left, m.rooms.len() as int, |i: int| p(m.rooms[i]), q);
    left
}

/// An announcement sets the field of this server's name, and changes nothing
/// else.
pub proof fn announcing_names_this_server(m: ServerModel)
    ensures
        m.announced() == (ServerModel {
            outbox: m.outbox + seq![
                ActionModel::Announce { hash: "game_server_hash"@, field: m.name },
            ],
            ..m
        }),
{
    assert(m.announced().outbox =~= m.outbox + seq![
        ActionModel::Announce { hash: "game_server_hash"@, field: m.name },
    ]);
}

/// The end of a game, ranked or not, is booked with the players, the map, the
/// rule and the moves of that game, and the user who is named as loser is the
/// one who played the losing side. The room has no game after that, and if it
/// is ranked, free seats and ten seconds; nothing else changes.
pub proof fn ending_a_game_books_that_game(
    m: ServerModel,
    i: int,
    loser: Player,
    cause: Seq<char>,
)
    requires
        m.wf(),
        0 <= i < m.rooms.len(),
        m.rooms[i].1.game is Some,
    ensures
        ({
            let room = m.rooms[i].1;
            let game = room.game->0;
            let after = m.completed(m.rooms[i].0, loser, cause);
            &&& after.outbox == m.outbox + seq![
                ActionModel::CompleteGame {
                    task: TaskModel::CompleteGame {
                        black: game.black,
                        white: game.white,
                        rank: room.rank is Some,
                        loser,
                        cause,
                        map: game.map,
                        game_rule: game.rule,
                        moves: game.history,
                    },
                    ending: EndingModel {
                        room_id: m.rooms[i].0,
                        loser: match loser {
                            Player::Black => game.black,
                            Player::White => game.white,
                        },
                        player: loser,
                        cause,
                    },
                },
            ]
            &&& after.rooms == m.rooms.update(
                i,
                (
                    m.rooms[i].0,
                    RoomModel {
                        game: None,
                        rank: match room.rank {
                            Some(_) => Some(
                                Rank { black: UserId::Empty, white: UserId::Empty, time: 10000 },
                            ),
                            None => None,
                        },
                        ..room
                    },
                ),
            )
            &&& after == (ServerModel { rooms: after.rooms, outbox: after.outbox, ..m })
        }),
{
    lemma_at(m.rooms, i);
    let after = m.completed(m.rooms[i].0, loser, cause);
    assert(after.outbox =~= m.outbox + seq![after.outbox.last()]);
}

/// Where no game is on, none ends.
pub proof fn ending_no_game_does_nothing(
    m: ServerModel,
    room_id: Seq<char>,
    loser: Player,
    cause: Seq<char>,
)
    requires
        m.wf(),
        forall|i: int|
            0 <= i < m.rooms.len() && (#[trigger] m.rooms[i]).0 == room_id
                ==> m.rooms[i].1.game is None,
    ensures
        m.completed(room_id, loser, cause) == m,
        !m.playing(room_id),
{
    if holds(m.rooms, room_id) {
        let i = at(m.rooms, room_id);
        assert(m.rooms[i].0 == room_id);
    }
}

/// A game is on in a room exactly when the room of that key has one.
pub proof fn a_game_is_on_by_key(m: ServerModel, i: int)
    requires
        m.wf(),
        0 <= i < m.rooms.len(),
    ensures
        m.playing(m.rooms[i].0) <==> m.rooms[i].1.game is Some,
{
    lemma_at(m.rooms, i);
}

/// How a game ended is told once to each user of its room that has a stream:
/// who lost, as which player and why, and the changes of the ratings as the
/// lobby gave them, whichever player lost.
pub proof fn the_end_of_a_game_is_told_as_booked(
    m: ServerModel,
    i: int,
    ending: EndingModel,
    result: CompleteGameResult,
) -> (to: Seq<int>)
    requires
        m.wf(),
        0 <= i < m.rooms.len(),
        ending.room_id == m.rooms[i].0,
    ensures
        ({
            let users = m.rooms[i].1.users;
            &&& lists(
                to,
                users.len() as int,
                |k: int| m.streams.contains(users[k].1.conn_id),
            )
            &&& m.ended(ending, result) == (ServerModel {
                outbox: m.outbox + Seq::new(
                    to.len(),
                    |k: int|
                        ActionModel::Send {
                            conn_id: users[to[k]].1.conn_id,
                            event: EventModel::Ended {
                                loser: ending.loser,
                                winner_delta: result.winner_delta,
                                loser_delta: result.loser_delta,
                                player: ending.player,
                                cause: ending.cause,
                            },
                        },
                ),
                ..m
            })
        }),
{
    a_broadcast_is_one_send_per_user(
        m,
        i,
        EventModel::Ended {
            loser: ending.loser,
            winner_delta: result.winner_delta,
            loser_delta: result.loser_delta,
            player: ending.player,
            cause: ending.cause,
        },
    )
}

/// From the end of a game to what its room is told of it: the user who played
/// the losing side is the one who is told to have lost, and the ratings change
/// as the lobby booked them.
pub proof fn who_played_the_losing_side_is_told_to_have_lost(
    m: ServerModel,
    i: int,
    loser: Player,
    cause: Seq<char>,
    result: CompleteGameResult,
    c: u128,
)
    requires
        m.wf(),
        0 <= i < m.rooms.len(),
        m.rooms[i].1.game is Some,
        m.streams.contains(c),
        exists|k: int|
            0 <= k < m.rooms[i].1.users.len() && (#[trigger] m.rooms[i].1.users[k]).1.conn_id == c,
    ensures
        ({
            let game = m.rooms[i].1.game->0;
            let booked = m.completed(m.rooms[i].0, loser, cause);
            &&& booked.outbox.len() > 0
            &&& booked.outbox.last() matches ActionModel::CompleteGame { task, ending }
            &&& booked.ended(ending, result).outbox.contains(
                ActionModel::Send {
                    conn_id: c,
                    event: EventModel::Ended {
                        loser: match loser {
                            Player::Black => game.black,
                            Player::White => game.white,
                        },
                        winner_delta: result.winner_delta,
                        loser_delta: result.loser_delta,
                        player: loser,
                        cause,
                    },
                },
            )
        }),
{
    ending_a_game_books_that_game(m, i, loser, cause);
    let booked = m.completed(m.rooms[i].0, loser, cause);
    let ending = booked.outbox.last()->CompleteGame_ending;
    lemma_at(m.rooms, i);
    assert(m.rooms[i].1.wf());
    lemma_put_wf(m, m.rooms[i].0, booked.rooms[i].1);
    assert(booked.rooms[i].1.users == m.rooms[i].1.users);
    let event = EventModel::Ended {
        loser: ending.loser,
        winner_delta: result.winner_delta,
        loser_delta: result.loser_delta,
        player: ending.player,
        cause: ending.cause,
    };
    let to = the_end_of_a_game_is_told_as_booked(booked, i, ending, result);
    let users = m.rooms[i].1.users;
    let u = choose|k: int| 0 <= k < users.len() && (#[trigger] users[k]).1.conn_id == c;
    assert((|k: int| booked.streams.contains(booked.rooms[i].1.users[k].1.conn_id))(u));
    let k = choose|k: int| 0 <= k < to.len() && to[k] == u;
    assert(booked.ended(ending, result).outbox[booked.outbox.len() + k] == (ActionModel::Send {
        conn_id: c,
        event,
    }));
}

/// Where a connection that is in a room closes and the room stays, each who
/// stays in it and has a stream is told once, in the order of the users, who
/// left, and then, if the settings of the room changed by that, the new ones.
/// The room is then as the user left it, the connection is forgotten, the
/// server announces itself, and nothing else changes.
pub proof fn closing_tells_those_who_stay(
    m: ServerModel,
    conn_id: u128,
    king: UserId,
    i: int,
) -> (to: Seq<int>)
    requires
        m.wf(),
        m.conns.contains_key(conn_id),
        0 <= i < m.rooms.len(),
        m.conns[conn_id].room_id == Some(m.rooms[i].0),
        m.rooms[i].1.rank is Some || exists|k: int|
            0 <= k < m.rooms[i].1.users.len() && (#[trigger] m.rooms[i].1.users[k]).0 != conn_id,
    ensures
        ({
            let users = m.rooms[i].1.users;
            let user = m.conns[conn_id].user_id;
            let room = m.rooms[i].1.left(conn_id, user, king);
            let told = |event: EventModel|
                Seq::new(
                    to.len(),
                    |k: int| ActionModel::Send { conn_id: users[to[k]].1.conn_id, event },
                );
            &&& lists(
                to,
                users.len() as int,
                |k: int| users[k].0 != conn_id && m.streams.contains(users[k].1.conn_id),
            )
            &&& m.closed(conn_id, king) == (ServerModel {
                rooms: m.rooms.update(i, (m.rooms[i].0, room)),
                conns: m.conns.remove(conn_id),
                streams: m.streams.remove(conn_id),
                outbox: m.outbox + told(EventModel::Left { user }) + if room.conf
                    == m.rooms[i].1.conf {
                    Seq::empty()
                } else {
                    told(EventModel::Confed { conf: room.conf })
                } + seq![ActionModel::Announce { hash: "game_server_hash"@, field: m.name }],
                ..m
            })
        }),
{
    let room_id = m.rooms[i].0;
    let before = m.rooms[i].1;
    let users = before.users;
    let user = m.conns[conn_id].user_id;
    let room = before.left(conn_id, user, king);
    lemma_at(m.rooms, i);
    assert(before.wf());
    lemma_filter_distinct(users, other_than(conn_id));
    lemma_put_wf(m, room_id, room);
    let all = lemma_others_lists(before, conn_id);
    lemma_others_empty(before, conn_id, all);
    let left = ServerModel { rooms: put(m.rooms, room_id, room), ..m };
    assert(left.rooms =~= m.rooms.update(i, (room_id, room)));
    let p = other_than::<u128, User>(conn_id);
    let q = |u: (u128, User)| m.streams.contains(u.1.conn_id);
    let both = |u: (u128, User)| u.0 != conn_id && m.streams.contains(u.1.conn_id);
    lemma_filter_twice(users, p, q, both);
    let to = lemma_filter_lists(users, both);
    lemma_lists_same(
        to,
        users.len() as int,
        |k: int| both(users[k]),
        |k: int| users[k].0 != conn_id && m.streams.contains(users[k].1.conn_id),
    );
    let told = |event: EventModel|
        Seq::new(
            to.len(),
            |k: int| ActionModel::Send { conn_id: users[to[k]].1.conn_id, event },
        );
    assert forall|event: EventModel| #[trigger] told(event) == sends(
        reached(room.users, m.streams),
        event,
    ) by {
        assert(told(event) =~= sends(reached(room.users, m.streams), event));
    }
    let l = EventModel::Left { user };
    let c = EventModel::Confed { conf: room.conf };
    assert(left.broadcasted(room_id, l).outbox == m.outbox + told(l));
    assert(left.broadcasted(room_id, l).broadcasted(room_id, c).outbox == m.outbox + told(l)
        + told(c));
    let after = m.closed(conn_id, king);
    let announce = ActionModel::Announce { hash: "game_server_hash"@, field: m.name };
    if room.conf == before.conf {
        assert(after.outbox =~= m.outbox + told(l) + Seq::empty() + seq![announce]);
    } else {
        assert(after.outbox =~= m.outbox + told(l) + told(c) + seq![announce]);
    }
    to
}

/// Where the last connection in an unranked room closes, the room goes, with
/// the rooms under the keys of the invites to it; nobody is told, the
/// connection is forgotten and the server announces itself. Nothing else
/// changes.
pub proof fn closing_the_last_deletes_the_room(
    m: ServerModel,
    conn_id: u128,
    king: UserId,
    i: int,
) -> (stay: Seq<int>)
    requires
        m.wf(),
        m.conns.contains_key(conn_id),
        0 <= i < m.rooms.len(),
        m.conns[conn_id].room_id == Some(m.rooms[i].0),
        m.rooms[i].1.rank is None,
        forall|k: int|
            0 <= k < m.rooms[i].1.users.len() ==> (#[trigger] m.rooms[i].1.users[k]).0 == conn_id,
    ensures
        lists(
            stay,
            m.rooms.len() as int,
            |r: int|
                r != i && forall|k: int|
                    0 <= k < m.invites.len() && (#[trigger] m.invites[k]).1.room_id == m.rooms[i].0
                        ==> m.invites[k].0 != m.rooms[r].0,
        ),
        m.closed(conn_id, king) == (ServerModel {
            rooms: entries(m.rooms, stay),
            conns: m.conns.remove(conn_id),
            streams: m.streams.remove(conn_id),
            outbox: m.outbox + seq![
                ActionModel::Announce { hash: "game_server_hash"@, field: m.name },
            ],
            ..m
        }),
{
    let room_id = m.rooms[i].0;
    let before = m.rooms[i].1;
    let room = before.left(conn_id, m.conns[conn_id].user_id, king);
    lemma_at(m.rooms, i);
    let all = lemma_others_lists(before, conn_id);
    lemma_others_empty(before, conn_id, all);
    let left = ServerModel { rooms: put(m.rooms, room_id, room), ..m };
    assert(left.rooms =~= m.rooms.update(i, (room_id, room)));
    let stay = deleting_leaves_all_other_rooms(left, room_id);
    let p = |r: int|
        left.rooms[r].0 != room_id && forall|k: int|
            0 <= k < left.invites.len() && (#[trigger] left.invites[k]).1.room_id == room_id
                ==> left.invites[k].0 != left.rooms[r].0;
    let q = |r: int|
        r != i && forall|k: int|
            0 <= k < m.invites.len() && (#[trigger] m.invites[k]).1.room_id == m.rooms[i].0
                ==> m.invites[k].0 != m.rooms[r].0;
    assert forall|r: int| 0 <= r < m.rooms.len() implies #[trigger] q(r) == p(r) by {
        assert(left.rooms[r].0 == m.rooms[r].0);
        if r != i {
            assert(m.rooms[r].0 != m.rooms[i].0);
        }
    }
    lemma_lists_same(stay, m.rooms.len() as int, p, q);
    assert forall|k: int| 0 <= k < stay.len() implies left.rooms[#[trigger] stay[k]]
        == m.rooms[stay[k]] by {
        assert(q(stay[k]));
    }
    assert(entries(left.rooms, stay) =~= entries(m.rooms, stay));
    assert(m.closed(conn_id, king).outbox =~= m.outbox + seq![
        ActionModel::Announce { hash: "game_server_hash"@, field: m.name },
    ]);
    stay
}

/// The closing of a connection that is not known, or in no room, or in a room
/// that is not known, changes nothing.
pub proof fn closing_outside_of_rooms_does_nothing(m: ServerModel, conn_id: u128, king: UserId)
    requires
        !m.conns.contains_key(conn_id) || m.conns[conn_id].room_id is None || forall|i: int|
            0 <= i < m.rooms.len() ==> Some((#[trigger] m.rooms[i]).0) != m.conns[conn_id].room_id,
    ensures
        m.closed(conn_id, king) == m,
        !m.in_room(conn_id),
{
    if m.in_room(conn_id) {
        let i = at(m.rooms, m.conns[conn_id].room_id->0);
        assert(m.rooms[i].0 == m.conns[conn_id].room_id->0);
    }
}

/// A connection is in a room exactly when it is known and names a room that is
/// known; that room loses its king with it exactly when its user is the king
/// and somebody else is there. One who becomes king is then on another
/// connection of the room.
pub proof fn a_king_is_lost_with_the_kings_connection(
    m: ServerModel,
    conn_id: u128,
    i: int,
)
    requires
        m.wf(),
        m.conns.contains_key(conn_id),
        0 <= i < m.rooms.len(),
        m.conns[conn_id].room_id == Some(m.rooms[i].0),
    ensures
        m.in_room(conn_id),
        m.room_of(conn_id) == m.rooms[i].1,
        m.loses_king(conn_id) <==> m.conns[conn_id].user_id == m.rooms[i].1.conf.king && exists|k: int|
            0 <= k < m.rooms[i].1.users.len() && (#[trigger] m.rooms[i].1.users[k]).0 != conn_id,
{
    lemma_at(m.rooms, i);
    let all = lemma_others_lists(m.rooms[i].1, conn_id);
    lemma_others_empty(m.rooms[i].1, conn_id, all);
}

/// A refused command is answered with its message to the connection that sent
/// it, if that has a stream, and that connection is then cut if it is to be;
/// nothing else changes.
pub proof fn refusing_answers_the_sender(
    m: ServerModel,
    conn_id: u128,
    message: Seq<char>,
    cut: bool,
)
    ensures
        !m.streams.contains(conn_id) ==> m.refused(conn_id, message, cut) == m,
        m.streams.contains(conn_id) && cut ==> m.refused(conn_id, message, cut) == (ServerModel {
            outbox: m.outbox + seq![
                ActionModel::Send { conn_id, event: EventModel::Error { message } },
                ActionModel::Shutdown { conn_id },
            ],
            ..m
        }),
        m.streams.contains(conn_id) && !cut ==> m.refused(conn_id, message, cut) == (ServerModel {
            outbox: m.outbox + seq![
                ActionModel::Send { conn_id, event: EventModel::Error { message } },
            ],
            ..m
        }),
{
    let e = ActionModel::Send { conn_id, event: EventModel::Error { message } };
    let s = ActionModel::Shutdown { conn_id };
    assert(m.outbox.push(e).push(s) =~= m.outbox + seq![e, s]);
    assert(m.outbox.push(e) =~= m.outbox + seq![e]);
}

/// A result goes out once, as it is, on the channel that its id names; nothing
/// else changes.
pub proof fn a_result_goes_out_on_the_channel_of_its_id(
    m: ServerModel,
    id: Seq<char>,
    result: ResultModel,
)
    ensures
        m.resulted(id, result) == (ServerModel {
            outbox: m.outbox + seq![
                ActionModel::PushResult { channel: "task_result_chan_"@ + id, result },
            ],
            ..m
        }),
{
    let a = ActionModel::PushResult { channel: "task_result_chan_"@ + id, result };
    assert(m.outbox.push(a) =~= m.outbox + seq![a]);
}

/// What is asked for is done once, after all that was asked for before; nothing
/// else changes.
pub proof fn asking_adds_one_action(m: ServerModel, action: ActionModel)
    ensures
        m.asked(action) == (ServerModel { outbox: m.outbox + seq![action], ..m }),
{
    assert(m.outbox.push(action) =~= m.outbox + seq![action]);
}

/// An invite is found by its user and its room, both of them.
pub proof fn an_invite_is_of_one_user_to_one_room(
    invite: InviteModel,
    user_id: UserId,
    room_id: Seq<char>,
)
    ensures
        invites_user(invite, user_id, room_id) <==> invite.user_id == user_id && invite.room_id
            == room_id,
{
}

/// A room is found under its key, and a room that is changed keeps its place
/// and its key, while no other changes.
pub proof fn rooms_are_found_and_changed_by_key(
    m: ServerModel,
    i: int,
    room: RoomModel,
    key: Seq<char>,
)
    requires
        m.wf(),
        0 <= i < m.rooms.len(),
    ensures
        holds(m.rooms, m.rooms[i].0),
        get(m.rooms, m.rooms[i].0) == m.rooms[i].1,
        put(m.rooms, m.rooms[i].0, room) == m.rooms.update(i, (m.rooms[i].0, room)),
        holds(m.rooms, key) <==> exists|j: int|
            0 <= j < m.rooms.len() && (#[trigger] m.rooms[j]).0 == key,
{
    lemma_at(m.rooms, i);
}

} // verus!
