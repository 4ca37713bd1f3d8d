//! The calls into other crates, each with what is relied on.

use rand::Rng;
use vstd::prelude::*;

use crate::address::{for_redis, hostless, overlong};
use crate::model::User;

verus! {

/// The client of the task store, which is only carried.
#[verifier::external_type_specification]
#[verifier::external_body]
pub struct ExRedisClient(redis::Client);

/// The error of the task store's client.
#[verifier::external_type_specification]
#[verifier::external_body]
pub struct ExRedisError(redis::RedisError);

/// The client that `redis::Client::open` makes of an address, if it takes it.
pub uninterp spec fn redis_open(address: Seq<char>) -> Option<redis::Client>;

/// Calls `redis::Client::open`, which parses the address and connects to
/// nothing. Whether it succeeds and the client that it makes depend on the
/// address alone; which addresses it takes is left to that crate, as is the
/// error that it gives for the others. Three kinds of addresses are not handed
/// to it, as it can panic on them:
/// - one with a port but without a host and without a user, whose port it would
///   take for a password;
/// - one of another scheme, none of which it takes: it would parse the whole of
///   it first, and the encoding of a long host of a web address can overflow;
/// - one that names its host and user at such length that its count of the
///   characters, a signed number of 32 bits, overflows.
#[verifier::external_body]
pub(crate) fn open_redis(address: &str) -> (r: Result<redis::Client, redis::RedisError>)
    requires
        !hostless(address@),
        for_redis(address@),
        !overlong(address@),
    ensures
        match r {
            Ok(client) => redis_open(address@) == Some(client),
            Err(_) => redis_open(address@) is None,
        },
{
    redis::Client::open(address)
}

/// Calls `rand::Rng::choose` on the generator of the thread: an element of
/// `values`, or nothing where there is none. Which element is left to chance.
#[verifier::external_body]
pub(crate) fn choose_user(values: &Vec<User>) -> (r: Option<&User>)
    ensures
        r is None <==> values@.len() == 0,
        r matches Some(user) ==> values@.contains(*user),
{
    rand::thread_rng().choose(values)
}

/// The bits of `id` by which a random identifier is known as such: version
/// four, variant one-zero.
pub open spec fn is_random_id(id: u128) -> bool {
    (id >> 76) & 0xf == 4 && (id >> 62) & 0x3 == 2
}

/// Calls `uuid::Uuid::new_v4`: the sixteen bytes of a random identifier, as a
/// number, first byte highest. All but the marks of the version are left to
/// chance.
#[verifier::external_body]
pub(crate) fn new_id() -> (r: u128)
    ensures
        is_random_id(r),
{
    u128::from_be_bytes(*uuid::Uuid::new_v4().as_bytes())
}

/// The `k`-th of the thirty-two hexadecimal digits of `id`, highest first.
pub open spec fn id_digit(id: u128, k: int) -> char {
    let digits = seq![
        '0', '1', '2', '3', '4', '5', '6', '7', '8', '9', 'a', 'b', 'c', 'd', 'e', 'f',
    ];
    digits[((id >> ((4 * (31 - k)) as u128)) & 0xf) as int]
}

/// `n` digits of `id` from the `from`-th on.
pub open spec fn id_digits(id: u128, from: int, n: nat) -> Seq<char> {
    Seq::new(n, |j: int| id_digit(id, from + j))
}

/// An identifier in text: five groups of lower-case digits with hyphens between.
pub open spec fn hyphenated(id: u128) -> Seq<char> {
    id_digits(id, 0, 8) + seq!['-'] + id_digits(id, 8, 4) + seq!['-'] + id_digits(id, 12, 4)
        + seq!['-'] + id_digits(id, 16, 4) + seq!['-'] + id_digits(id, 20, 12)
}

/// Calls `to_string` of a `uuid::Uuid`, whose display form is the hyphenated one.
#[verifier::external_body]
pub(crate) fn id_to_string(id: u128) -> (r: String)
    ensures
        r@ == hyphenated(id),
{
    uuid::Uuid::from_bytes(id.to_be_bytes()).to_string()
}

} // verus!
