//! What holds of a room, said of its users, its seats, its game and its time.

use vstd::prelude::*;

use crate::listing::{entries, lemma_filter_lists, lemma_lists_same, lists};
use crate::model::{EndedCause, Game, Player, Rank, User, UserId};
use crate::room::{answered, users_of, waited_room, Answer, AnswerModel, Room, RoomModel};
use crate::table::other_than;

verus! {

/// Who leaves a room takes nothing along but the own place: all users but the
/// one of the connection stay, as they were and in their order, and so do the
/// id, the game, the waiting time and the further settings.
pub proof fn leaving_takes_nothing_else(
    room: RoomModel,
    conn_id: u128,
    user_id: UserId,
    king: UserId,
) -> (at: Seq<int>)
    ensures
        lists(at, room.users.len() as int, |i: int| room.users[i].0 != conn_id),
        room.left(conn_id, user_id, king).users == entries(room.users, at),
        room.left(conn_id, user_id, king).id == room.id,
        room.left(conn_id, user_id, king).game == room.game,
        room.left(conn_id, user_id, king).rank == room.rank,
        room.left(conn_id, user_id, king).conf.details == room.conf.details,
{
    lemma_others_lists(room, conn_id)
}

/// Who leaves frees no seat but the own one, and that only while no game is on.
pub proof fn leaving_frees_own_seats_only(
    room: RoomModel,
    conn_id: u128,
    user_id: UserId,
    king: UserId,
)
    ensures
        room.conf.black != user_id ==> room.left(conn_id, user_id, king).conf.black
            == room.conf.black,
        room.conf.white != user_id ==> room.left(conn_id, user_id, king).conf.white
            == room.conf.white,
        room.game is Some ==> room.left(conn_id, user_id, king).conf.black == room.conf.black
            && room.left(conn_id, user_id, king).conf.white == room.conf.white,
        room.game is None && room.conf.black == user_id ==> room.left(
            conn_id,
            user_id,
            king,
        ).conf.black == UserId::Empty,
        room.game is None && room.conf.white == user_id ==> room.left(
            conn_id,
            user_id,
            king,
        ).conf.white == UserId::Empty,
{
}

/// The king changes exactly where the king leaves and somebody else is there.
pub proof fn only_a_leaving_king_is_replaced(
    room: RoomModel,
    conn_id: u128,
    user_id: UserId,
    king: UserId,
)
    ensures
        room.conf.king != user_id ==> room.left(conn_id, user_id, king).conf.king == room.conf.king,
        (forall|i: int| 0 <= i < room.users.len() ==> (#[trigger] room.users[i]).0 == conn_id)
            ==> room.left(conn_id, user_id, king).conf.king == room.conf.king,
        room.conf.king == user_id && (exists|i: int|
            0 <= i < room.users.len() && (#[trigger] room.users[i]).0 != conn_id) ==> room.left(
            conn_id,
            user_id,
            king,
        ).conf.king == king,
{
    let at = lemma_others_lists(room, conn_id);
    lemma_others_empty(room, conn_id, at);
}

/// A user stays where a connection leaves exactly when some other connection
/// of the room is that user's.
pub proof fn who_stays_has_another_connection(room: RoomModel, conn_id: u128, user_id: UserId)
    ensures
        room.stays(conn_id, user_id) <==> exists|i: int|
            0 <= i < room.users.len() && (#[trigger] room.users[i]).0 != conn_id
                && room.users[i].1.user_id == user_id,
{
    let at = lemma_others_lists(room, conn_id);
    let others = room.others(conn_id);
    if room.stays(conn_id, user_id) {
        let k = choose|k: int| 0 <= k < others.len() && (#[trigger] others[k]).1.user_id == user_id;
        assert(others[k] == room.users[at[k]]);
    }
    if exists|i: int|
        0 <= i < room.users.len() && (#[trigger] room.users[i]).0 != conn_id
            && room.users[i].1.user_id == user_id {
        let i = choose|i: int|
            0 <= i < room.users.len() && (#[trigger] room.users[i]).0 != conn_id
                && room.users[i].1.user_id == user_id;
        assert((|i: int| room.users[i].0 != conn_id)(i));
        let k = choose|k: int| 0 <= k < at.len() && at[k] == i;
        assert(others[k] == room.users[i]);
    }
}

/// The users among whom a king is chosen are all but the one of the
/// connection, in their order.
pub proof fn a_king_is_chosen_among_all_others(room: RoomModel, conn_id: u128) -> (at: Seq<int>)
    ensures
        lists(at, room.users.len() as int, |i: int| room.users[i].0 != conn_id),
        users_of(room.others(conn_id)) == Seq::new(at.len(), |k: int| room.users[at[k]].1),
{
    let at = lemma_others_lists(room, conn_id);
    assert(users_of(room.others(conn_id)) =~= Seq::new(at.len(), |k: int| room.users[at[k]].1));
    at
}

pub(crate) proof fn lemma_others_lists(room: RoomModel, conn_id: u128) -> (at: Seq<int>)
    ensures
        lists(at, room.users.len() as int, |i: int| room.users[i].0 != conn_id),
        room.others(conn_id) == entries(room.users, at),
{
    let p = other_than::<u128, User>(conn_id);
    let at = lemma_filter_lists(room.users, p);
    lemma_lists_same(
        at,
        room.users.len() as int,
        |i: int| p(room.users[i]),
        |i: int| room.users[i].0 != conn_id,
    );
    at
}

pub(crate) proof fn lemma_others_empty(room: RoomModel, conn_id: u128, at: Seq<int>)
    requires
        lists(at, room.users.len() as int, |i: int| room.users[i].0 != conn_id),
        room.others(conn_id) == entries(room.users, at),
    ensures
        room.others(conn_id).len() == 0 <==> forall|i: int|
            0 <= i < room.users.len() ==> (#[trigger] room.users[i]).0 == conn_id,
{
    let p = |i: int| room.users[i].0 != conn_id;
    if at.len() == 0 {
        assert forall|i: int| 0 <= i < room.users.len() implies (#[trigger] room.users[i]).0
            == conn_id by {
            if p(i) {
                assert(at.contains(i));
            }
        }
    } else {
        assert(p(at[0]));
        assert(room.users[at[0]].0 != conn_id);
    }
}

/// A user is in a room exactly when one of its users has that id.
pub proof fn a_user_is_found_by_id(room: RoomModel, user_id: UserId)
    ensures
        room.exists_user(user_id) <==> exists|i: int|
            0 <= i < room.users.len() && (#[trigger] room.users[i]).1.user_id == user_id,
{
}

/// A game can begin only in a ranked room without a game in which both of its
/// players are; a game goes on exactly where one was or began.
pub proof fn a_game_needs_both_players(room: RoomModel, answer: AnswerModel)
    requires
        room.admits(answer),
    ensures
        answer.started is Some ==> {
            &&& room.game is None
            &&& room.rank is Some
            &&& exists|i: int|
                0 <= i < room.users.len() && (#[trigger] room.users[i]).1.user_id
                    == room.rank->0.black
            &&& exists|i: int|
                0 <= i < room.users.len() && (#[trigger] room.users[i]).1.user_id
                    == room.rank->0.white
        },
        answer.advanced is Some <==> room.game is Some || answer.started is Some,
{
}

/// The attempt to start a game is made in exactly those rooms that are ranked,
/// have no game, and have both players among their users; the game that is then
/// on, and no other, goes on.
pub proof fn the_rules_are_asked_where_both_players_are<S, A>(
    room: Room,
    dt: usize,
    start: S,
    advance: A,
    answer: Answer,
) where S: Fn(&Room) -> Option<Game>, A: Fn(Game, usize) -> (Game, Option<(Player, EndedCause)>)
    requires
        answered(room, dt, start, advance, answer),
    ensures
        room.game is None && room.rank is Some && (exists|i: int|
            0 <= i < room.users@.len() && (#[trigger] room.users@[i]).1.user_id
                == room.rank->0.black) && (exists|i: int|
            0 <= i < room.users@.len() && (#[trigger] room.users@[i]).1.user_id
                == room.rank->0.white) ==> call_ensures(start, (&room,), answer.started),
        room.game is Some || room.rank is None ==> answer.started is None,
        room.rank is Some && (forall|i: int|
            0 <= i < room.users@.len() ==> (#[trigger] room.users@[i]).1.user_id
                != room.rank->0.black) ==> answer.started is None,
        room.rank is Some && (forall|i: int|
            0 <= i < room.users@.len() ==> (#[trigger] room.users@[i]).1.user_id
                != room.rank->0.white) ==> answer.started is None,
        room.game matches Some(game) ==> answer.advanced is Some && call_ensures(
            advance,
            (game, dt),
            answer.advanced->0,
        ),
        answer.started matches Some(game) ==> answer.advanced is Some && call_ensures(
            advance,
            (game, dt),
            answer.advanced->0,
        ),
        room.game is None && answer.started is None ==> answer.advanced is None,
{
}

/// What a room is shown to the rules of the game as: itself, with the time that
/// it has left.
pub proof fn waiting_shows_in_the_time_only(room: Room, dt: usize)
    ensures
        waited_room(room, dt).id == room.id,
        waited_room(room, dt).users == room.users,
        waited_room(room, dt).conf == room.conf,
        waited_room(room, dt).game == room.game,
        waited_room(room, dt)@ == room@.waited(dt),
        room.game is Some || room.rank is None ==> waited_room(room, dt).rank == room.rank,
{
}

/// The time of a ranked room without a game runs down by what has passed, as
/// long as some is left; nothing else about the room changes by waiting, and
/// in other rooms nothing at all.
pub proof fn waiting_takes_the_time_that_passed(room: RoomModel, dt: usize)
    requires
        room.wait_fits(dt),
    ensures
        room.game is Some || room.rank is None ==> room.waited(dt) == room,
        room.rank is Some && room.rank->0.time <= 0 ==> room.waited(dt) == room,
        room.game is None && room.rank is Some && room.rank->0.time > 0 ==> {
            &&& room.waited(dt).id == room.id
            &&& room.waited(dt).users == room.users
            &&& room.waited(dt).conf == room.conf
            &&& room.waited(dt).game is None
            &&& room.waited(dt).rank is Some
            &&& room.waited(dt).rank->0.black == room.rank->0.black
            &&& room.waited(dt).rank->0.white == room.rank->0.white
            &&& room.waited(dt).rank->0.time == room.rank->0.time - (dt as isize)
        },
{
}

/// Waiting is out of the machine's reach only where the time that is left of a
/// ranked room without a game would be.
pub proof fn waiting_fits_unless_the_time_overflows(room: RoomModel, dt: usize)
    ensures
        room.game is Some || room.rank is None || room.rank->0.time <= 0 ==> room.wait_fits(dt),
        room.rank is Some && isize::MIN <= room.rank->0.time - (dt as isize) <= isize::MAX
            ==> room.wait_fits(dt),
{
}

/// A room closes exactly when it is ranked, has no game and has no time left.
pub proof fn a_room_closes_when_its_time_is_up(room: RoomModel)
    ensures
        room.closing() <==> room.rank is Some && room.game is None && room.rank->0.time <= 0,
{
}

/// A room in which a game goes on holds the game as it went on, and is
/// otherwise the same.
pub proof fn playing_changes_the_game_only(room: RoomModel, answer: AnswerModel)
    ensures
        answer.advanced matches Some(advanced) ==> room.played(answer).game == Some(advanced.0),
        answer.advanced is None ==> room.played(answer).game is None,
        room.played(answer).id == room.id,
        room.played(answer).users == room.users,
        room.played(answer).conf == room.conf,
        room.played(answer).rank == room.rank,
{
}

/// A room whose game has ended has no game, and, if it is ranked, free seats
/// for the next one and ten seconds to fill them; otherwise it is the same.
pub proof fn finishing_resets_game_and_rank_only(room: RoomModel)
    ensures
        room.finished().game is None,
        room.finished().id == room.id,
        room.finished().users == room.users,
        room.finished().conf == room.conf,
        room.rank is None ==> room.finished().rank is None,
        room.rank is Some ==> room.finished().rank == Some(
            Rank { black: UserId::Empty, white: UserId::Empty, time: 10000 },
        ),
{
}

/// A room is well-formed exactly when no connection is in it twice.
pub proof fn a_room_holds_no_connection_twice(room: RoomModel)
    ensures
        room.wf() <==> forall|i: int, j: int|
            0 <= i < j < room.users.len() ==> (#[trigger] room.users[i]).0 != (
            #[trigger] room.users[j]).0,
{
}

} // verus!
