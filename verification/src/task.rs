//! Tasks that this server gives to others and takes from its queue.

use vstd::prelude::*;

use crate::action::ServerEvent;
use crate::model::{Error, RequestModel, ResultModel, Task, TaskModel, TaskRequest, TaskResult};
use crate::names::{
    game_queue, redis_game_queue, redis_result_channel, result_channel, REDIS_LOBBY_QUEUE,
    RESULT_TIMEOUT,
};
use crate::outside::{hyphenated, id_to_string, is_random_id, new_id};
use crate::server::Server;

verus! {

/// A task on its way: push the request on the queue, then wait for the result
/// on the channel for at most so many seconds.
pub struct TaskCall {
    pub queue: String,
    pub request: TaskRequest,
    pub channel: String,
    pub timeout: usize,
}

pub struct CallModel {
    pub queue: Seq<char>,
    pub request: RequestModel,
    pub channel: Seq<char>,
    pub timeout: usize,
}

impl View for TaskCall {
    type V = CallModel;

    open spec fn view(&self) -> CallModel {
        CallModel {
            queue: self.queue@,
            request: self.request@,
            channel: self.channel@,
            timeout: self.timeout,
        }
    }
}

/// The call of a task under an id: it goes to the lobby, and its result is
/// awaited on the channel of the id.
pub open spec fn lobby_call(id: Seq<char>, task: TaskModel) -> CallModel {
    CallModel {
        queue: REDIS_LOBBY_QUEUE@,
        request: RequestModel { id, task },
        channel: result_channel(id),
        timeout: RESULT_TIMEOUT,
    }
}

/// The item that a blocking pop brought: the second of what it gives, behind
/// the name of the queue.
pub fn popped_item(reply: &Vec<String>) -> (r: Result<&String, Error>)
    ensures
        match r {
            Ok(item) => reply.len() > 1 && item@ == reply@[1]@,
            Err(e) => reply.len() <= 1 && e is Missing,
        },
{
    if reply.len() > 1 {
        Ok(&reply[1])
    } else {
        Err(Error::Missing)
    }
}

/// The event that an item of this server's queue makes: the task that it holds,
/// and none where it holds none.
pub fn task_event(parsed: Option<TaskRequest>) -> (r: Option<ServerEvent>)
    ensures
        match parsed {
            Some(task_request) => r == Some(ServerEvent::TaskRequest { task_request }),
            None => r is None,
        },
{
    match parsed {
        Some(task_request) => Some(ServerEvent::TaskRequest { task_request }),
        None => None,
    }
}

/// What the result of a task says: its value, or the message of its error.
pub open spec fn result_says(result: ResultModel) -> Result<Seq<char>, Seq<char>> {
    match result.error {
        Some(message) => Err(message),
        None => Ok(result.value),
    }
}

/// What a task's result says to whoever asked for the task.
pub fn task_outcome(result: TaskResult) -> (r: Result<String, Error>)
    ensures
        match r {
            Ok(value) => result_says(result@) == Ok::<Seq<char>, Seq<char>>(value@),
            Err(Error::TaskError(message)) => result_says(result@) == Err::<Seq<char>, Seq<char>>(
                message@,
            ),
            Err(_) => false,
        },
{
    match result.error {
        Some(message) => Err(Error::TaskError(message)),
        None => Ok(result.value),
    }
}

impl Server {
    /// Prepares a task for the lobby under a given id.
    pub fn request_task_with(&self, id: String, task: Task) -> (r: TaskCall)
        ensures
            r@ == lobby_call(id@, task@),
    {
        let channel = redis_result_channel(id.as_str());
        TaskCall {
            queue: REDIS_LOBBY_QUEUE.to_owned(),
            request: TaskRequest { id, task },
            channel,
            timeout: RESULT_TIMEOUT,
        }
    }

    /// Prepares a task for the lobby under a new random id.
    pub fn request_task(&self, task: Task) -> (r: TaskCall)
        ensures
            exists|id: u128| is_random_id(id) && r@ == lobby_call(#[trigger] hyphenated(id), task@),
    {
        let id = new_id();
        self.request_task_with(id_to_string(id), task)
    }

    /// The queue from which this server takes its tasks.
    pub fn task_queue(&self) -> (r: String)
        ensures
            r@ == game_queue(self@.name),
    {
        redis_game_queue(self.name.as_str())
    }
}

/// A task goes to the lobby as it is, under its id, and its result is awaited
/// for five seconds on the channel that the id names.
pub proof fn a_task_goes_out_as_it_is(id: Seq<char>, task: TaskModel)
    ensures
        lobby_call(id, task).queue == "task_lobby_queue"@,
        lobby_call(id, task).request.id == id,
        lobby_call(id, task).request.task == task,
        lobby_call(id, task).channel == "task_result_chan_"@ + id,
        lobby_call(id, task).timeout == 5,
{
}

/// A result with an error says the message of that error, whatever its value;
/// one without says its value.
pub proof fn a_result_says_its_error_first(result: ResultModel)
    ensures
        result.error matches Some(message) ==> result_says(result) == Err::<Seq<char>, Seq<char>>(
            message,
        ),
        result.error is None ==> result_says(result) == Ok::<Seq<char>, Seq<char>>(result.value),
{
}

} // verus!
