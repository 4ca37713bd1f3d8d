//! The names under which the servers of one cluster find each other's queues.

use vstd::prelude::*;
use vstd::string::*;

verus! {

/// The hash in which every game server announces itself under its name.
pub const REDIS_SERVER_HASH: &'static str = "game_server_hash";

/// The queue from which the lobby takes its tasks.
pub const REDIS_LOBBY_QUEUE: &'static str = "task_lobby_queue";

/// Seconds for which the result of a task is awaited.
pub const RESULT_TIMEOUT: usize = 5;

/// The queue from which the game server of a name takes its tasks.
pub open spec fn game_queue(server: Seq<char>) -> Seq<char> {
    "task_game_queue_"@ + server
}

/// The channel on which the result of the task with an id is awaited.
pub open spec fn result_channel(id: Seq<char>) -> Seq<char> {
    "task_result_chan_"@ + id
}

pub fn redis_game_queue(server: &str) -> (r: String)
    ensures
        r@ == game_queue(server@),
{
    "task_game_queue_".to_owned().concat(server)
}

pub fn redis_result_channel(id: &str) -> (r: String)
    ensures
        r@ == result_channel(id@),
{
    "task_result_chan_".to_owned().concat(id)
}

/// Two servers share a queue only if they share their name.
pub proof fn game_queue_is_injective(a: Seq<char>, b: Seq<char>)
    ensures
        game_queue(a) == game_queue(b) ==> a == b,
{
    let p = "task_game_queue_"@;
    if game_queue(a) == game_queue(b) {
        assert(a =~= game_queue(a).skip(p.len() as int));
        assert(b =~= game_queue(b).skip(p.len() as int));
    }
}

/// Two tasks share a result channel only if they share their id.
pub proof fn result_channel_is_injective(a: Seq<char>, b: Seq<char>)
    ensures
        result_channel(a) == result_channel(b) ==> a == b,
{
    let p = "task_result_chan_"@;
    if result_channel(a) == result_channel(b) {
        assert(a =~= result_channel(a).skip(p.len() as int));
        assert(b =~= result_channel(b).skip(p.len() as int));
    }
}

/// No name or id makes a game queue, a result channel and the lobby's queue
/// coincide: a task is never taken for a result, nor for the lobby's work.
pub proof fn queues_do_not_meet(server: Seq<char>, id: Seq<char>)
    ensures
        game_queue(server) != result_channel(id),
        game_queue(server) != REDIS_LOBBY_QUEUE@,
        result_channel(id) != REDIS_LOBBY_QUEUE@,
{
    reveal_strlit("task_game_queue_");
    reveal_strlit("task_result_chan_");
    reveal_strlit("task_lobby_queue");
    assert(game_queue(server)[5] == 'g');
    assert(result_channel(id)[5] == 'r');
    assert(REDIS_LOBBY_QUEUE@[5] == 'l');
}

/// The names themselves, on which all servers of a cluster agree.
pub proof fn the_names_are_agreed_on(server: Seq<char>, id: Seq<char>)
    ensures
        game_queue(server) == "task_game_queue_"@ + server,
        result_channel(id) == "task_result_chan_"@ + id,
        REDIS_SERVER_HASH@ == "game_server_hash"@,
        REDIS_LOBBY_QUEUE@ == "task_lobby_queue"@,
        RESULT_TIMEOUT == 5,
{
}

} // verus!
