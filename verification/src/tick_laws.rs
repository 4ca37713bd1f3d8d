//! What the passing of time does, said of each room before and after it and of
//! the actions that it adds to the outbox.

use vstd::prelude::*;

use crate::action::{ActionModel, EndingModel};
use crate::listing::{lemma_filter_map_lists, lemma_lists_same, lists};
use crate::model::{EndedCause, EventModel, Game, GameModel, Player, Rank, TaskModel, UserId};
use crate::room::{waited_room, Answer, AnswerModel, Room, RoomModel};
use crate::server::{all_answered, answer_models, Server};
use crate::server_laws::{
    a_broadcast_reaches_every_user_and_nobody_else, destroying_is_one_cut_per_user,
    destroying_nothing_does_nothing, ending_a_game_books_that_game,
};
use crate::state::{
    games_lost, games_started, lemma_played_wf, lemma_put_wf, lemma_waited_starting,
    lemma_waited_wf, lost_in, rooms_closing, ServerModel,
};
use crate::table::{at, get, holds, lemma_at};

verus! {

/// The rooms in which a game began are exactly those for which the rules of the
/// game answered with one, in the order of the rooms, each with its id and that
/// game.
pub proof fn games_begin_where_the_rules_began_them(
    rooms: Seq<(Seq<char>, RoomModel)>,
    answers: Seq<AnswerModel>,
) -> (r: Seq<int>)
    requires
        answers.len() == rooms.len(),
    ensures
        lists(r, rooms.len() as int, |i: int| answers[i].started is Some),
        games_started(rooms, answers) == Seq::new(
            r.len(),
            |k: int| (rooms[r[k]].1.id, answers[r[k]].started->0),
        ),
{
    let z = rooms.zip_with(answers);
    let f = |e: ((Seq<char>, RoomModel), AnswerModel)|
        match e.1.started {
            Some(game) => Some((e.0.1.id, game)),
            None => None,
        };
    let r = lemma_filter_map_lists(z, f);
    lemma_lists_same(
        r,
        rooms.len() as int,
        |i: int| f(z[i]) is Some,
        |i: int| answers[i].started is Some,
    );
    assert(games_started(rooms, answers) == z.filter_map(f));
    assert forall|k: int| 0 <= k < r.len() implies f(z[#[trigger] r[k]])->0 == (
        rooms[r[k]].1.id,
        answers[r[k]].started->0,
    ) by {
        assert((|i: int| answers[i].started is Some)(r[k]));
        assert(z[r[k]] == (rooms[r[k]], answers[r[k]]));
    }
    assert(games_started(rooms, answers) =~= Seq::new(
        r.len(),
        |k: int| (rooms[r[k]].1.id, answers[r[k]].started->0),
    ));
    r
}

/// The rooms whose game was lost are exactly those for which the rules of the
/// game named a loser, in the order of the rooms, each with its id, that loser
/// and the cause.
pub proof fn games_are_lost_where_the_rules_say_so(
    rooms: Seq<(Seq<char>, RoomModel)>,
    answers: Seq<AnswerModel>,
) -> (r: Seq<int>)
    requires
        answers.len() == rooms.len(),
    ensures
        lists(
            r,
            rooms.len() as int,
            |i: int| answers[i].advanced is Some && (answers[i].advanced->0).1 is Some,
        ),
        games_lost(rooms, answers) == Seq::new(
            r.len(),
            |k: int|
                (
                    rooms[r[k]].1.id,
                    ((answers[r[k]].advanced->0).1->0).0,
                    ((answers[r[k]].advanced->0).1->0).1,
                ),
        ),
{
    let z = rooms.zip_with(answers);
    let f = |e: ((Seq<char>, RoomModel), AnswerModel)|
        match lost_in(e.1) {
            Some(l) => Some((e.0.1.id, l.0, l.1)),
            None => None,
        };
    let r = lemma_filter_map_lists(z, f);
    lemma_lists_same(
        r,
        rooms.len() as int,
        |i: int| f(z[i]) is Some,
        |i: int| answers[i].advanced is Some && (answers[i].advanced->0).1 is Some,
    );
    assert(games_lost(rooms, answers) == z.filter_map(f));
    assert forall|k: int| 0 <= k < r.len() implies f(z[#[trigger] r[k]])->0 == (
        rooms[r[k]].1.id,
        ((answers[r[k]].advanced->0).1->0).0,
        ((answers[r[k]].advanced->0).1->0).1,
    ) by {
        assert((|i: int| answers[i].advanced is Some && (answers[i].advanced->0).1 is Some)(r[k]));
        assert(z[r[k]] == (rooms[r[k]], answers[r[k]]));
    }
    assert(games_lost(rooms, answers) =~= Seq::new(
        r.len(),
        |k: int|
            (
                rooms[r[k]].1.id,
                ((answers[r[k]].advanced->0).1->0).0,
                ((answers[r[k]].advanced->0).1->0).1,
            ),
    ));
    r
}

/// The rooms that close are exactly the ranked ones without a game and without
/// time, in the order of the rooms, each by its id.
pub proof fn rooms_close_when_their_time_is_up(
    rooms: Seq<(Seq<char>, RoomModel)>,
) -> (r: Seq<int>)
    ensures
        lists(
            r,
            rooms.len() as int,
            |i: int|
                rooms[i].1.rank is Some && rooms[i].1.game is None && rooms[i].1.rank->0.time <= 0,
        ),
        rooms_closing(rooms) == Seq::new(r.len(), |k: int| rooms[r[k]].1.id),
{
    let f = |e: (Seq<char>, RoomModel)|
        if e.1.closing() {
            Some(e.1.id)
        } else {
            None
        };
    let r = lemma_filter_map_lists(rooms, f);
    lemma_lists_same(
        r,
        rooms.len() as int,
        |i: int| f(rooms[i]) is Some,
        |i: int|
            rooms[i].1.rank is Some && rooms[i].1.game is None && rooms[i].1.rank->0.time <= 0,
    );
    assert(rooms_closing(rooms) == rooms.filter_map(f));
    assert forall|k: int| 0 <= k < r.len() implies f(rooms[#[trigger] r[k]])->0
        == rooms[r[k]].1.id by {
        assert((|i: int|
            rooms[i].1.rank is Some && rooms[i].1.game is None && rooms[i].1.rank->0.time <= 0)(
            r[k],
        ));
    }
    assert(rooms_closing(rooms) =~= Seq::new(r.len(), |k: int| rooms[r[k]].1.id));
    r
}

/// Where no game of a room is over, the room holds after a tick the game that
/// the rules of the game left in it, and its time is what the waiting left of
/// it. Where one is over, the room has no game, and a ranked one waits anew.
/// Every room keeps its place, its key, its id, its users and its settings.
pub proof fn every_room_after_a_tick(
    m: ServerModel,
    dt: usize,
    answers: Seq<AnswerModel>,
    i: int,
)
    requires
        m.wf(),
        m.waits_fit(dt),
        answers.len() == m.rooms.len(),
        0 <= i < m.rooms.len(),
    ensures
        ({
            let old_room = m.rooms[i].1;
            let room = m.ticked(dt, answers).rooms[i].1;
            let over = exists|k: int|
                0 <= k < m.rooms.len() && (#[trigger] m.rooms[k]).1.id == m.rooms[i].0
                    && answers[k].advanced is Some && (answers[k].advanced->0).1 is Some;
            &&& m.ticked(dt, answers).rooms.len() == m.rooms.len()
            &&& m.ticked(dt, answers).rooms[i].0 == m.rooms[i].0
            &&& room.id == old_room.id
            &&& room.users == old_room.users
            &&& room.conf == old_room.conf
            &&& room.rank is Some <==> old_room.rank is Some
            &&& over || answers[i].advanced is None ==> room.game is None
            &&& !over && answers[i].advanced is Some ==> room.game == Some(
                (answers[i].advanced->0).0,
            )
            &&& over && answers[i].advanced is Some && old_room.rank is Some ==> room.rank == Some(
                Rank { black: UserId::Empty, white: UserId::Empty, time: 10000 },
            )
            &&& !over || answers[i].advanced is None ==> {
                &&& old_room.rank is Some ==> {
                    &&& room.rank->0.black == old_room.rank->0.black
                    &&& room.rank->0.white == old_room.rank->0.white
                    &&& room.rank->0.time == if old_room.game is None && old_room.rank->0.time
                        > 0 {
                        old_room.rank->0.time - (dt as isize)
                    } else {
                        old_room.rank->0.time as int
                    }
                }
            }
        }),
{
    let w = m.all_waited(dt);
    let p = w.all_played(answers);
    let started = games_started(w.rooms, answers);
    let lost = games_lost(w.rooms, answers);
    let told = p.all_told(started);
    let over = exists|k: int|
        0 <= k < m.rooms.len() && (#[trigger] m.rooms[k]).1.id == m.rooms[i].0
            && answers[k].advanced is Some && (answers[k].advanced->0).1 is Some;
    lemma_waited_wf(m, dt);
    lemma_played_wf(w, answers);
    lemma_told_keeps_rooms(p, started);
    lemma_destroyed_keeps_rooms(told.all_completed(lost), rooms_closing(m.rooms));
    assert(m.rooms[i].1.wait_fits(dt));
    let r = games_are_lost_where_the_rules_say_so(w.rooms, answers);
    let hit = exists|k: int| 0 <= k < lost.len() && (#[trigger] lost[k]).0 == m.rooms[i].0;
    if over {
        let k = choose|k: int|
            0 <= k < m.rooms.len() && (#[trigger] m.rooms[k]).1.id == m.rooms[i].0
                && answers[k].advanced is Some && (answers[k].advanced->0).1 is Some;
        assert((|i: int| answers[i].advanced is Some && (answers[i].advanced->0).1 is Some)(k));
        let q = choose|q: int| 0 <= q < r.len() && r[q] == k;
        assert(lost[q].0 == w.rooms[k].1.id);
    }
    if hit {
        let q = choose|k: int| 0 <= k < lost.len() && (#[trigger] lost[k]).0 == m.rooms[i].0;
        assert((|i: int| answers[i].advanced is Some && (answers[i].advanced->0).1 is Some)(r[q]));
        assert(m.rooms[r[q]].1.id == m.rooms[i].0);
    }
    lemma_completed_room(told, lost, i);
}

/// A tick lets every room wait, then every game go on, then tells of the games
/// that began, then ends the lost ones, then cuts the users of the rooms that
/// had no time left when it began.
pub proof fn a_tick_goes_in_this_order(m: ServerModel, dt: usize, answers: Seq<AnswerModel>)
    ensures
        ({
            let waited = m.all_waited(dt);
            m.ticked(dt, answers) == waited.all_played(answers).all_told(
                games_started(waited.rooms, answers),
            ).all_completed(games_lost(waited.rooms, answers)).all_destroyed(
                rooms_closing(m.rooms),
            )
        }),
{
}

/// In a tick every room waits, and every room goes on with its own answer;
/// neither changes anything else.
pub proof fn waiting_and_playing_go_room_by_room(
    m: ServerModel,
    dt: usize,
    answers: Seq<AnswerModel>,
    i: int,
)
    requires
        0 <= i < m.rooms.len(),
    ensures
        m.all_waited(dt).rooms.len() == m.rooms.len(),
        m.all_waited(dt).rooms[i] == (m.rooms[i].0, m.rooms[i].1.waited(dt)),
        m.all_waited(dt) == (ServerModel { rooms: m.all_waited(dt).rooms, ..m }),
        m.all_played(answers).rooms.len() == m.rooms.len(),
        m.all_played(answers).rooms[i] == (m.rooms[i].0, m.rooms[i].1.played(answers[i])),
        m.all_played(answers) == (ServerModel { rooms: m.all_played(answers).rooms, ..m }),
        m.waits_fit(dt) ==> m.rooms[i].1.wait_fits(dt),
        m.admits(answers) ==> answers.len() == m.rooms.len() && m.rooms[i].1.admits(answers[i]),
{
}

/// Games that began are told of one by one, in order: each by one broadcast to
/// its room.
pub proof fn games_are_told_of_one_by_one(
    m: ServerModel,
    a: Seq<(Seq<char>, GameModel)>,
    b: Seq<(Seq<char>, GameModel)>,
    room_id: Seq<char>,
    game: GameModel,
)
    ensures
        m.all_told(Seq::empty()) == m,
        m.all_told(seq![(room_id, game)]) == m.broadcasted(room_id, EventModel::Started { game }),
        m.all_told(a + b) == m.all_told(a).all_told(b),
    decreases b.len(),
{
    let one = seq![(room_id, game)];
    assert(one.drop_last() =~= Seq::empty());
    assert(m.all_told(one.drop_last()) == m);
    if b.len() == 0 {
        assert(a + b =~= a);
    } else {
        games_are_told_of_one_by_one(m, a, b.drop_last(), room_id, game);
        assert((a + b).drop_last() =~= a + b.drop_last());
    }
}

/// Lost games end one by one, in order.
pub proof fn games_end_one_by_one(
    m: ServerModel,
    a: Seq<(Seq<char>, Player, Seq<char>)>,
    b: Seq<(Seq<char>, Player, Seq<char>)>,
    room_id: Seq<char>,
    loser: Player,
    cause: Seq<char>,
)
    ensures
        m.all_completed(Seq::empty()) == m,
        m.all_completed(seq![(room_id, loser, cause)]) == m.completed(room_id, loser, cause),
        m.all_completed(a + b) == m.all_completed(a).all_completed(b),
    decreases b.len(),
{
    let one = seq![(room_id, loser, cause)];
    assert(one.drop_last() =~= Seq::empty());
    assert(m.all_completed(one.drop_last()) == m);
    if b.len() == 0 {
        assert(a + b =~= a);
    } else {
        games_end_one_by_one(m, a, b.drop_last(), room_id, loser, cause);
        assert((a + b).drop_last() =~= a + b.drop_last());
    }
}

/// Rooms are destroyed one by one, in order.
pub proof fn rooms_are_destroyed_one_by_one(
    m: ServerModel,
    a: Seq<Seq<char>>,
    b: Seq<Seq<char>>,
    room_id: Seq<char>,
)
    ensures
        m.all_destroyed(Seq::empty()) == m,
        m.all_destroyed(seq![room_id]) == m.destroyed(room_id),
        m.all_destroyed(a + b) == m.all_destroyed(a).all_destroyed(b),
    decreases b.len(),
{
    let one = seq![room_id];
    assert(one.drop_last() =~= Seq::empty());
    assert(m.all_destroyed(one.drop_last()) == m);
    if b.len() == 0 {
        assert(a + b =~= a);
    } else {
        rooms_are_destroyed_one_by_one(m, a, b.drop_last(), room_id);
        assert((a + b).drop_last() =~= a + b.drop_last());
    }
}

/// Telling of games changes no room.
proof fn lemma_told_keeps_rooms(m: ServerModel, started: Seq<(Seq<char>, GameModel)>)
    ensures
        m.all_told(started) == (ServerModel { outbox: m.all_told(started).outbox, ..m }),
    decreases started.len(),
{
    if started.len() > 0 {
        lemma_told_keeps_rooms(m, started.drop_last());
    }
}

/// Destroying rooms changes no room.
proof fn lemma_destroyed_keeps_rooms(m: ServerModel, closing: Seq<Seq<char>>)
    ensures
        m.all_destroyed(closing) == (ServerModel { outbox: m.all_destroyed(closing).outbox, ..m }),
    decreases closing.len(),
{
    if closing.len() > 0 {
        lemma_destroyed_keeps_rooms(m, closing.drop_last());
    }
}

/// A room after the games of some ids have ended.
proof fn lemma_completed_room(
    m: ServerModel,
    lost: Seq<(Seq<char>, Player, Seq<char>)>,
    i: int,
)
    requires
        m.wf(),
        0 <= i < m.rooms.len(),
    ensures
        m.all_completed(lost).wf(),
        m.all_completed(lost).rooms.len() == m.rooms.len(),
        m.all_completed(lost).rooms[i] == (if m.rooms[i].1.game is Some && exists|k: int|
            0 <= k < lost.len() && (#[trigger] lost[k]).0 == m.rooms[i].0 {
            (
                m.rooms[i].0,
                RoomModel {
                    game: None,
                    rank: match m.rooms[i].1.rank {
                        Some(_) => Some(
                            Rank { black: UserId::Empty, white: UserId::Empty, time: 10000 },
                        ),
                        None => None,
                    },
                    ..m.rooms[i].1
                },
            )
        } else {
            m.rooms[i]
        }),
    decreases lost.len(),
{
    if lost.len() > 0 {
        let rest = lost.drop_last();
        let b = m.all_completed(rest);
        let l = lost.last();
        lemma_completed_room(m, rest, i);
        assert forall|k: int| 0 <= k < rest.len() implies #[trigger] lost[k] == rest[k] by {}
        if exists|k: int| 0 <= k < lost.len() && (#[trigger] lost[k]).0 == m.rooms[i].0 {
            let k = choose|k: int| 0 <= k < lost.len() && (#[trigger] lost[k]).0 == m.rooms[i].0;
            if k < rest.len() {
                assert(rest[k].0 == m.rooms[i].0);
            }
        }
        if exists|k: int| 0 <= k < rest.len() && (#[trigger] rest[k]).0 == m.rooms[i].0 {
            let k = choose|k: int| 0 <= k < rest.len() && (#[trigger] rest[k]).0 == m.rooms[i].0;
            assert(lost[k].0 == m.rooms[i].0);
        }
        if b.playing(l.0) {
            let j = at(b.rooms, l.0);
            assert(b.rooms[j].0 == l.0);
            ending_a_game_books_that_game(b, j, l.1, l.2);
            assert(b.rooms[j].1.wf());
            lemma_put_wf(b, l.0, b.rooms[j].1.finished());
            if i != j {
                assert(b.rooms[i].0 != b.rooms[j].0);
            }
        } else if b.rooms[i].0 == l.0 {
            lemma_at(b.rooms, i);
        }
        assert(l == lost[lost.len() - 1]);
    }
}

/// A room that had no game has one after a tick only if it is ranked and both
/// players of its next game are among its users.
pub proof fn no_game_begins_without_both_players(
    m: ServerModel,
    dt: usize,
    answers: Seq<AnswerModel>,
    i: int,
)
    requires
        m.wf(),
        m.waits_fit(dt),
        m.admits(answers),
        0 <= i < m.rooms.len(),
        m.rooms[i].1.game is None,
        m.ticked(dt, answers).rooms[i].1.game is Some,
    ensures
        m.rooms[i].1.rank is Some,
        exists|k: int|
            0 <= k < m.rooms[i].1.users.len() && (#[trigger] m.rooms[i].1.users[k]).1.user_id
                == m.rooms[i].1.rank->0.black,
        exists|k: int|
            0 <= k < m.rooms[i].1.users.len() && (#[trigger] m.rooms[i].1.users[k]).1.user_id
                == m.rooms[i].1.rank->0.white,
{
    every_room_after_a_tick(m, dt, answers, i);
    assert(m.rooms[i].1.admits(answers[i]));
}

/// What the rules of the game are asked during a tick: to start a game in
/// exactly those rooms that are ranked, have no game and have both players
/// among their users, each shown with the time that it then has left; and to
/// let exactly the games that are then on go on.
pub proof fn the_rules_are_asked_of_every_room<S, A>(
    s: Server,
    dt: usize,
    start: S,
    advance: A,
    answers: Seq<Answer>,
    i: int,
) where S: Fn(&Room) -> Option<Game>, A: Fn(Game, usize) -> (Game, Option<(Player, EndedCause)>)
    requires
        all_answered(s.rooms.raw(), dt, start, advance, answers),
        0 <= i < s.rooms@.len(),
    ensures
        answers.len() == s.rooms@.len(),
        answer_models(answers).len() == answers.len(),
        answer_models(answers)[i] == answers[i]@,
        ({
            let room = s.rooms.raw()[i].1;
            let here = |u: UserId|
                exists|k: int|
                    0 <= k < room.users@.len() && (#[trigger] room.users@[k]).1.user_id == u;
            &&& room.game is None && room.rank is Some && here(room.rank->0.black) && here(
                room.rank->0.white,
            ) ==> call_ensures(start, (&waited_room(room, dt),), answers[i].started)
            &&& room.game is Some || room.rank is None || !here(room.rank->0.black) || !here(
                room.rank->0.white,
            ) ==> answers[i].started is None
            &&& room.game matches Some(game) ==> answers[i].advanced is Some && call_ensures(
                advance,
                (game, dt),
                answers[i].advanced->0,
            )
            &&& answers[i].started matches Some(game) ==> answers[i].advanced is Some
                && call_ensures(advance, (game, dt), answers[i].advanced->0)
            &&& room.game is None && answers[i].started is None ==> answers[i].advanced is None
        }),
{
    let room = s.rooms.raw()[i].1;
    let w = waited_room(room, dt);
    lemma_waited_starting(room@, dt);
    assert(w@ == room@.waited(dt));
    assert(w.users == room.users);
    assert(w.game == room.game);
    let here = |u: UserId|
        exists|k: int| 0 <= k < room.users@.len() && (#[trigger] room.users@[k]).1.user_id == u;
    assert(room@.starting() <==> room.game is None && room.rank is Some && here(
        room.rank->0.black,
    ) && here(room.rank->0.white));
}

/// What a tick adds to the outbox of a server whose rooms are known by their
/// ids: first it tells of the games that began, then it books the end of each
/// game that was lost, as it then stood, once and in the order of the rooms,
/// then it cuts the users of the rooms that close.
pub proof fn what_a_tick_adds(
    m: ServerModel,
    dt: usize,
    answers: Seq<AnswerModel>,
    c: u128,
    g: GameModel,
) -> (r: (Seq<ActionModel>, Seq<int>, Seq<ActionModel>))
    requires
        m.wf(),
        answers.len() == m.rooms.len(),
        forall|i: int|
            0 <= i < m.rooms.len() ==> (#[trigger] m.rooms[i]).0 == m.rooms[i].1.id,
    ensures
        m.ticked(dt, answers).outbox == m.outbox + r.0 + Seq::new(
            r.1.len(),
            |k: int|
                {
                    let room = m.rooms[r.1[k]].1;
                    let game = (answers[r.1[k]].advanced->0).0;
                    let lost = (answers[r.1[k]].advanced->0).1->0;
                    ActionModel::CompleteGame {
                        task: TaskModel::CompleteGame {
                            black: game.black,
                            white: game.white,
                            rank: room.rank is Some,
                            loser: lost.0,
                            cause: lost.1,
                            map: game.map,
                            game_rule: game.rule,
                            moves: game.history,
                        },
                        ending: EndingModel {
                            room_id: room.id,
                            loser: match lost.0 {
                                Player::Black => game.black,
                                Player::White => game.white,
                            },
                            player: lost.0,
                            cause: lost.1,
                        },
                    }
                },
        ) + r.2,
        lists(
            r.1,
            m.rooms.len() as int,
            |i: int| answers[i].advanced is Some && (answers[i].advanced->0).1 is Some,
        ),
        // The games that began are told to all users of their rooms, and only they.
        r.0.contains(
            ActionModel::Send { conn_id: c, event: EventModel::Started { game: g } },
        ) <==> m.streams.contains(c) && exists|i: int, k: int|
            0 <= i < m.rooms.len() && answers[i].started == Some(g) && 0 <= k
                < m.rooms[i].1.users.len() && (#[trigger] m.rooms[i].1.users[k]).1.conn_id == c,
        forall|k: int|
            0 <= k < r.0.len() ==> (#[trigger] r.0[k]) is Send && r.0[k]->Send_event is Started,
        // The users of the rooms that close are cut, and only they.
        r.2.contains(ActionModel::Shutdown { conn_id: c }) <==> m.streams.contains(c)
            && exists|i: int, k: int|
            0 <= i < m.rooms.len() && m.rooms[i].1.rank is Some && m.rooms[i].1.game is None
                && m.rooms[i].1.rank->0.time <= 0 && 0 <= k < m.rooms[i].1.users.len() && (
            #[trigger] m.rooms[i].1.users[k]).1.conn_id == c,
        forall|k: int| 0 <= k < r.2.len() ==> (#[trigger] r.2[k]) is Shutdown,
{
    let w = m.all_waited(dt);
    let p = w.all_played(answers);
    let started = games_started(w.rooms, answers);
    let lost = games_lost(w.rooms, answers);
    let closing = rooms_closing(m.rooms);
    lemma_waited_wf(m, dt);
    lemma_played_wf(w, answers);
    assert forall|i: int| 0 <= i < m.rooms.len() implies (#[trigger] p.rooms[i]).0 == m.rooms[i].0
        && p.rooms[i].1.users == m.rooms[i].1.users && p.rooms[i].1.id == m.rooms[i].1.id && (
    p.rooms[i].1.rank is Some <==> m.rooms[i].1.rank is Some) && p.rooms[i].1.game == (
    match answers[i].advanced {
        Some(a) => Some(a.0),
        None => None,
    }) by {}
    let s_at = games_begin_where_the_rules_began_them(w.rooms, answers);
    let l_at = games_are_lost_where_the_rules_say_so(w.rooms, answers);
    let c_at = rooms_close_when_their_time_is_up(m.rooms);
    let told = p.all_told(started);
    lemma_told_keeps_rooms(p, started);
    assert forall|k: int| 0 <= k < started.len() implies holds(p.rooms, (#[trigger] started[k]).0) by {
        assert(p.rooms[s_at[k]].0 == started[k].0);
    }
    let r0 = lemma_told_adds(p, started, c, g);
    let send = ActionModel::Send { conn_id: c, event: EventModel::Started { game: g } };
    if r0.contains(send) {
        let k = choose|k: int|
            0 <= k < started.len() && (#[trigger] started[k]).1 == g && has_conn(
                get(p.rooms, started[k].0),
                c,
            );
        let i = s_at[k];
        assert((|i: int| answers[i].started is Some)(i));
        lemma_at(p.rooms, i);
        let u = choose|u: int|
            0 <= u < p.rooms[i].1.users.len() && (#[trigger] p.rooms[i].1.users[u]).1.conn_id == c;
        assert(m.rooms[i].1.users[u].1.conn_id == c);
    }
    if m.streams.contains(c) && exists|i: int, k: int|
        0 <= i < m.rooms.len() && answers[i].started == Some(g) && 0 <= k
            < m.rooms[i].1.users.len() && (#[trigger] m.rooms[i].1.users[k]).1.conn_id == c {
        let (i, u) = choose|i: int, k: int|
            0 <= i < m.rooms.len() && answers[i].started == Some(g) && 0 <= k
                < m.rooms[i].1.users.len() && (#[trigger] m.rooms[i].1.users[k]).1.conn_id == c;
        assert((|i: int| answers[i].started is Some)(i));
        let k = choose|k: int| 0 <= k < s_at.len() && s_at[k] == i;
        lemma_at(p.rooms, i);
        assert(p.rooms[i].1.users[u].1.conn_id == c);
        assert(started[k].1 == g && has_conn(get(p.rooms, started[k].0), c));
    }
    lemma_completed_adds(told, lost, l_at, answers, lost.len() as int);
    assert(lost.take(lost.len() as int) =~= lost);
    let done = told.all_completed(lost);
    if m.rooms.len() > 0 {
        lemma_completed_room(told, lost, 0);
    } else {
        assert(lost.len() == 0);
    }
    assert forall|i: int| 0 <= i < done.rooms.len() implies (#[trigger] done.rooms[i]).0
        == m.rooms[i].0 && done.rooms[i].1.users == m.rooms[i].1.users by {
        lemma_completed_room(told, lost, i);
    }
    let r2 = lemma_destroyed_adds(done, closing, c);
    let cut = ActionModel::Shutdown { conn_id: c };
    if r2.contains(cut) {
        let k = choose|k: int|
            0 <= k < closing.len() && holds(done.rooms, #[trigger] closing[k]) && has_conn(
                get(done.rooms, closing[k]),
                c,
            );
        let i = c_at[k];
        assert((|i: int|
            m.rooms[i].1.rank is Some && m.rooms[i].1.game is None && m.rooms[i].1.rank->0.time
                <= 0)(i));
        assert(done.rooms[i].0 == closing[k]);
        lemma_at(done.rooms, i);
        let u = choose|u: int|
            0 <= u < done.rooms[i].1.users.len() && (#[trigger] done.rooms[i].1.users[u]).1.conn_id
                == c;
        assert(m.rooms[i].1.users[u].1.conn_id == c);
    }
    if m.streams.contains(c) && exists|i: int, k: int|
        0 <= i < m.rooms.len() && m.rooms[i].1.rank is Some && m.rooms[i].1.game is None
            && m.rooms[i].1.rank->0.time <= 0 && 0 <= k < m.rooms[i].1.users.len() && (
        #[trigger] m.rooms[i].1.users[k]).1.conn_id == c {
        let (i, u) = choose|i: int, k: int|
            0 <= i < m.rooms.len() && m.rooms[i].1.rank is Some && m.rooms[i].1.game is None
                && m.rooms[i].1.rank->0.time <= 0 && 0 <= k < m.rooms[i].1.users.len() && (
            #[trigger] m.rooms[i].1.users[k]).1.conn_id == c;
        assert((|i: int|
            m.rooms[i].1.rank is Some && m.rooms[i].1.game is None && m.rooms[i].1.rank->0.time
                <= 0)(i));
        let k = choose|k: int| 0 <= k < c_at.len() && c_at[k] == i;
        assert(done.rooms[i].0 == closing[k]);
        lemma_at(done.rooms, i);
        assert(done.rooms[i].1.users[u].1.conn_id == c);
        assert(has_conn(get(done.rooms, closing[k]), c));
    }
    let booked = Seq::new(
        l_at.len(),
        |k: int| booking(told.rooms[l_at[k]].1, lost[k].1, lost[k].2),
    );
    assert(m.ticked(dt, answers).outbox == m.outbox + r0 + booked + r2);
    assert(booked =~= Seq::new(
        l_at.len(),
        |k: int|
            {
                let room = m.rooms[l_at[k]].1;
                let game = (answers[l_at[k]].advanced->0).0;
                let lost = (answers[l_at[k]].advanced->0).1->0;
                ActionModel::CompleteGame {
                    task: TaskModel::CompleteGame {
                        black: game.black,
                        white: game.white,
                        rank: room.rank is Some,
                        loser: lost.0,
                        cause: lost.1,
                        map: game.map,
                        game_rule: game.rule,
                        moves: game.history,
                    },
                    ending: EndingModel {
                        room_id: room.id,
                        loser: match lost.0 {
                            Player::Black => game.black,
                            Player::White => game.white,
                        },
                        player: lost.0,
                        cause: lost.1,
                    },
                }
            },
    )) by {
        assert forall|k: int| 0 <= k < l_at.len() implies answers[#[trigger] l_at[k]].advanced is Some by {
            assert((|i: int| answers[i].advanced is Some && (answers[i].advanced->0).1 is Some)(
                l_at[k],
            ));
        }
    }
    (r0, l_at, r2)
}

/// Some user of the room is on the connection.
spec fn has_conn(room: RoomModel, c: u128) -> bool {
    exists|k: int| 0 <= k < room.users.len() && (#[trigger] room.users[k]).1.conn_id == c
}

/// The booking of the end of the game of a room.
spec fn booking(room: RoomModel, loser: Player, cause: Seq<char>) -> ActionModel {
    let game = room.game->0;
    ActionModel::CompleteGame {
        task: TaskModel::CompleteGame {
            black: game.black,
            white: game.white,
            rank: room.rank is Some,
            loser,
            cause,
            map: game.map,
            game_rule: game.rule,
            moves: game.history,
        },
        ending: EndingModel {
            room_id: room.id,
            loser: match loser {
                Player::Black => game.black,
                Player::White => game.white,
            },
            player: loser,
            cause,
        },
    }
}

proof fn lemma_told_adds(
    m: ServerModel,
    started: Seq<(Seq<char>, GameModel)>,
    c: u128,
    g: GameModel,
) -> (added: Seq<ActionModel>)
    requires
        m.wf(),
        forall|k: int| 0 <= k < started.len() ==> holds(m.rooms, (#[trigger] started[k]).0),
    ensures
        m.all_told(started).outbox == m.outbox + added,
        added.contains(
            ActionModel::Send { conn_id: c, event: EventModel::Started { game: g } },
        ) <==> m.streams.contains(c) && exists|k: int|
            0 <= k < started.len() && (#[trigger] started[k]).1 == g && has_conn(
                get(m.rooms, started[k].0),
                c,
            ),
        forall|k: int|
            0 <= k < added.len() ==> (#[trigger] added[k]) is Send && added[k]->Send_event is Started,
    decreases started.len(),
{
    let send = ActionModel::Send { conn_id: c, event: EventModel::Started { game: g } };
    if started.len() == 0 {
        let added = Seq::<ActionModel>::empty();
        assert(m.outbox + added =~= m.outbox);
        added
    } else {
        let rest = started.drop_last();
        let l = started.last();
        assert(l == started[started.len() - 1]);
        assert forall|k: int| 0 <= k < rest.len() implies holds(m.rooms, (#[trigger] rest[k]).0) by {
            assert(rest[k] == started[k]);
        }
        let before = lemma_told_adds(m, rest, c, g);
        lemma_told_keeps_rooms(m, rest);
        let b = m.all_told(rest);
        let event = EventModel::Started { game: l.1 };
        let i = at(b.rooms, l.0);
        assert(b.rooms[i].0 == l.0);
        a_broadcast_reaches_every_user_and_nobody_else(b, i, event, c);
        let after = b.broadcasted(l.0, event);
        let more = after.outbox.skip(b.outbox.len() as int);
        assert(after.outbox =~= b.outbox + more);
        let added = before + more;
        assert(m.outbox + before + more =~= m.outbox + added);
        assert(has_conn(get(m.rooms, l.0), c) == (exists|k: int|
            0 <= k < b.rooms[i].1.users.len() && (#[trigger] b.rooms[i].1.users[k]).1.conn_id == c));
        if added.contains(send) {
            let k = choose|k: int| 0 <= k < added.len() && added[k] == send;
            if k < before.len() {
                assert(before[k] == send);
                let q = choose|q: int|
                    0 <= q < rest.len() && (#[trigger] rest[q]).1 == g && has_conn(
                        get(m.rooms, rest[q].0),
                        c,
                    );
                assert(started[q] == rest[q]);
            } else {
                assert(more[k - before.len()] == send);
                assert(event == (EventModel::Started { game: g }));
                assert(started[started.len() - 1].1 == g);
            }
        }
        if m.streams.contains(c) && exists|k: int|
            0 <= k < started.len() && (#[trigger] started[k]).1 == g && has_conn(
                get(m.rooms, started[k].0),
                c,
            ) {
            let k = choose|k: int|
                0 <= k < started.len() && (#[trigger] started[k]).1 == g && has_conn(
                    get(m.rooms, started[k].0),
                    c,
                );
            if k < rest.len() {
                assert(rest[k] == started[k]);
                let q = choose|q: int| 0 <= q < before.len() && before[q] == send;
                assert(added[q] == send);
            } else {
                let q = choose|q: int| 0 <= q < more.len() && more[q] == send;
                assert(added[before.len() + q] == send);
            }
        }
        assert forall|k: int| 0 <= k < added.len() implies (#[trigger] added[k]) is Send
            && added[k]->Send_event is Started by {
            if k < before.len() {
                assert(added[k] == before[k]);
            } else {
                assert(added[k] == more[k - before.len()]);
            }
        }
        added
    }
}

proof fn lemma_completed_adds(
    m: ServerModel,
    lost: Seq<(Seq<char>, Player, Seq<char>)>,
    l_at: Seq<int>,
    answers: Seq<AnswerModel>,
    n: int,
)
    requires
        m.wf(),
        0 <= n <= lost.len(),
        l_at.len() == lost.len(),
        lists(
            l_at,
            m.rooms.len() as int,
            |i: int| answers[i].advanced is Some && (answers[i].advanced->0).1 is Some,
        ),
        forall|k: int|
            0 <= k < lost.len() ==> (#[trigger] lost[k]).0 == m.rooms[l_at[k]].0,
        forall|i: int| 0 <= i < m.rooms.len() ==> (#[trigger] m.rooms[i]).0 == m.rooms[i].1.id,
        forall|i: int|
            0 <= i < m.rooms.len() && answers[i].advanced is Some ==> (
            #[trigger] m.rooms[i]).1.game is Some,
    ensures
        m.all_completed(lost.take(n)).outbox == m.outbox + Seq::new(
            n as nat,
            |k: int| booking(m.rooms[l_at[k]].1, lost[k].1, lost[k].2),
        ),
        m.all_completed(lost.take(n)) == (ServerModel {
            rooms: m.all_completed(lost.take(n)).rooms,
            outbox: m.all_completed(lost.take(n)).outbox,
            ..m
        }),
    decreases n,
{
    let now = m.all_completed(lost.take(n));
    if n == 0 {
        assert(lost.take(0) =~= Seq::empty());
        assert(now.outbox =~= m.outbox + Seq::new(
            0nat,
            |k: int| booking(m.rooms[l_at[k]].1, lost[k].1, lost[k].2),
        ));
    } else {
        lemma_completed_adds(m, lost, l_at, answers, n - 1);
        let rest = lost.take(n - 1);
        let l = lost[n - 1];
        let i = l_at[n - 1];
        let b = m.all_completed(rest);
        assert(lost.take(n).drop_last() =~= rest);
        assert(lost.take(n).last() == l);
        lemma_completed_room(m, rest, i);
        assert forall|k: int| 0 <= k < rest.len() implies (#[trigger] rest[k]).0 != m.rooms[i].0 by {
            assert(rest[k] == lost[k]);
            assert(l_at[k] < l_at[n - 1]);
            assert(m.rooms[l_at[k]].0 != m.rooms[i].0);
        }
        assert((|i: int| answers[i].advanced is Some && (answers[i].advanced->0).1 is Some)(i));
        assert(b.rooms[i] == m.rooms[i]);
        ending_a_game_books_that_game(b, i, l.1, l.2);
        assert(now.outbox =~= m.outbox + Seq::new(
            n as nat,
            |k: int| booking(m.rooms[l_at[k]].1, lost[k].1, lost[k].2),
        ));
    }
}

proof fn lemma_destroyed_adds(
    m: ServerModel,
    closing: Seq<Seq<char>>,
    c: u128,
) -> (added: Seq<ActionModel>)
    requires
        m.wf(),
    ensures
        m.all_destroyed(closing).outbox == m.outbox + added,
        added.contains(ActionModel::Shutdown { conn_id: c }) <==> m.streams.contains(c)
            && exists|k: int|
            0 <= k < closing.len() && holds(m.rooms, #[trigger] closing[k]) && has_conn(
                get(m.rooms, closing[k]),
                c,
            ),
        forall|k: int| 0 <= k < added.len() ==> (#[trigger] added[k]) is Shutdown,
    decreases closing.len(),
{
    let cut = ActionModel::Shutdown { conn_id: c };
    if closing.len() == 0 {
        let added = Seq::<ActionModel>::empty();
        assert(m.outbox + added =~= m.outbox);
        added
    } else {
        let rest = closing.drop_last();
        let l = closing.last();
        assert(l == closing[closing.len() - 1]);
        let before = lemma_destroyed_adds(m, rest, c);
        lemma_destroyed_keeps_rooms(m, rest);
        let b = m.all_destroyed(rest);
        let after = b.destroyed(l);
        let more = if holds(b.rooms, l) {
            let i = at(b.rooms, l);
            assert(b.rooms[i].0 == l);
            let to = destroying_is_one_cut_per_user(b, i);
            let users = b.rooms[i].1.users;
            let p = |k: int| b.streams.contains(users[k].1.conn_id);
            let more = Seq::new(
                to.len(),
                |k: int| ActionModel::Shutdown { conn_id: users[to[k]].1.conn_id },
            );
            if more.contains(cut) {
                let k = choose|k: int| 0 <= k < more.len() && more[k] == cut;
                assert(p(to[k]));
                assert(users[to[k]].1.conn_id == c);
                assert(has_conn(get(m.rooms, l), c));
            }
            if m.streams.contains(c) && has_conn(get(m.rooms, l), c) {
                let u = choose|u: int| 0 <= u < users.len() && (#[trigger] users[u]).1.conn_id == c;
                assert(p(u));
                let k = choose|k: int| 0 <= k < to.len() && to[k] == u;
                assert(more[k] == cut);
            }
            more
        } else {
            assert forall|i: int| 0 <= i < b.rooms.len() implies (#[trigger] b.rooms[i]).0 != l by {}
            destroying_nothing_does_nothing(b, l);
            Seq::empty()
        };
        assert(after.outbox =~= b.outbox + more);
        let added = before + more;
        assert(m.outbox + before + more =~= m.outbox + added);
        if added.contains(cut) {
            let k = choose|k: int| 0 <= k < added.len() && added[k] == cut;
            if k < before.len() {
                assert(before[k] == cut);
                let q = choose|q: int|
                    0 <= q < rest.len() && holds(m.rooms, #[trigger] rest[q]) && has_conn(
                        get(m.rooms, rest[q]),
                        c,
                    );
                assert(closing[q] == rest[q]);
            } else {
                assert(more[k - before.len()] == cut);
                assert(more.contains(cut));
                assert(holds(m.rooms, closing[closing.len() - 1]));
            }
        }
        if m.streams.contains(c) && exists|k: int|
            0 <= k < closing.len() && holds(m.rooms, #[trigger] closing[k]) && has_conn(
                get(m.rooms, closing[k]),
                c,
            ) {
            let k = choose|k: int|
                0 <= k < closing.len() && holds(m.rooms, #[trigger] closing[k]) && has_conn(
                    get(m.rooms, closing[k]),
                    c,
                );
            if k < rest.len() {
                assert(rest[k] == closing[k]);
                let q = choose|q: int| 0 <= q < before.len() && before[q] == cut;
                assert(added[q] == cut);
            } else {
                let q = choose|q: int| 0 <= q < more.len() && more[q] == cut;
                assert(added[before.len() + q] == cut);
            }
        }
        assert forall|k: int| 0 <= k < added.len() implies (#[trigger] added[k]) is Shutdown by {
            if k < before.len() {
                assert(added[k] == before[k]);
            } else {
                assert(added[k] == more[k - before.len()]);
            }
        }
        added
    }
}

} // verus!
