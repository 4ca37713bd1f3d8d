//! The lines that come from a client's socket and go to it.

use vstd::prelude::*;
use vstd::string::*;

use crate::action::{ServerEvent, ServerEventModel};
use crate::model::{Command, Event, EventModel};
use crate::outside::{is_random_id, new_id};

verus! {

/// `s` without the null characters that it begins with.
pub open spec fn trimmed_start(s: Seq<char>) -> Seq<char>
    decreases s.len(),
{
    if s.len() > 0 && s.first() == '\0' {
        trimmed_start(s.drop_first())
    } else {
        s
    }
}

/// `s` without the null characters that it ends with.
pub open spec fn trimmed_end(s: Seq<char>) -> Seq<char>
    decreases s.len(),
{
    if s.len() > 0 && s.last() == '\0' {
        trimmed_end(s.drop_last())
    } else {
        s
    }
}

/// `s` without the null characters at its ends.
pub open spec fn trimmed(s: Seq<char>) -> Seq<char> {
    trimmed_end(trimmed_start(s))
}

/// A message without the null characters at its ends.
pub fn trim_nulls(msg: &str) -> (r: String)
    ensures
        r@ == trimmed(msg@),
{
    let ghost s = msg@;
    let n: usize = msg.unicode_len();
    let mut i: usize = 0;
    assert(s.skip(0) =~= s);
    while i < n && msg.get_char(i) == '\0'
        invariant
            i <= n,
            n == s.len(),
            s == msg@,
            trimmed_start(s) == trimmed_start(s.skip(i as int)),
        decreases n - i,
    {
        assert(s.skip(i as int).drop_first() =~= s.skip(i + 1));
        i += 1;
    }
    let ghost t = s.skip(i as int);
    let mut j: usize = n;
    assert(t =~= s.subrange(i as int, n as int));
    while j > i && msg.get_char(j - 1) == '\0'
        invariant
            i <= j <= n,
            n == s.len(),
            s == msg@,
            trimmed_end(t) == trimmed_end(s.subrange(i as int, j as int)),
        decreases j,
    {
        assert(s.subrange(i as int, j as int).drop_last() =~= s.subrange(i as int, j - 1));
        j -= 1;
    }
    msg.substring_char(i, j).to_owned()
}

/// A read of a line brought nothing: `read` is the number of bytes read,
/// nothing where the read failed.
pub open spec fn stops(read: Option<usize>) -> bool {
    read is None || read == Some(0usize)
}

/// The event that a line of a client makes: its command, or a reply to the
/// client where it is none.
pub open spec fn parsed_event(conn_id: u128, parsed: Option<Seq<char>>) -> ServerEventModel {
    match parsed {
        Some(cmd) => ServerEventModel::Command { conn_id, cmd },
        None => ServerEventModel::Dispatch {
            conn_id,
            event: EventModel::Error { message: "json format error"@ },
        },
    }
}

/// The events that the lines of a client make, in the order of the lines.
pub open spec fn line_events(conn_id: u128, parsed: Seq<Option<Seq<char>>>) -> Seq<
    ServerEventModel,
> {
    parsed.map_values(|p: Option<Seq<char>>| parsed_event(conn_id, p))
}

/// The events of a client's stream, from its beginning to its end.
pub open spec fn stream_events(conn_id: u128, parsed: Seq<Option<Seq<char>>>) -> Seq<
    ServerEventModel,
> {
    seq![ServerEventModel::Connect { conn_id }] + line_events(conn_id, parsed) + seq![
        ServerEventModel::Close { conn_id },
    ]
}

/// The length of the first line of `s`, with the line break that ends it.
pub open spec fn line_len(s: Seq<char>) -> nat
    decreases s.len(),
{
    if s.len() == 0 {
        0
    } else if s.first() == '\n' {
        1
    } else {
        1 + line_len(s.drop_first())
    }
}

/// The lines of what a client sends, each with the line break that ends it. The
/// last may lack one.
pub open spec fn lines(s: Seq<char>) -> Seq<Seq<char>>
    decreases s.len(),
{
    if s.len() == 0 {
        Seq::empty()
    } else {
        proof {
            lemma_line_len(s);
        }
        seq![s.take(line_len(s) as int)] + lines(s.skip(line_len(s) as int))
    }
}

/// What `parse` makes of each line, without the null characters at its ends.
pub open spec fn parsed_lines(
    lines: Seq<Seq<char>>,
    parse: spec_fn(Seq<char>) -> Option<Seq<char>>,
) -> Seq<Option<Seq<char>>> {
    lines.map_values(|line: Seq<char>| parse(trimmed(line)))
}

/// The events that a client's text makes, where `parse` reads a command.
pub open spec fn text_events(
    conn_id: u128,
    input: Seq<char>,
    parse: spec_fn(Seq<char>) -> Option<Seq<char>>,
) -> Seq<ServerEventModel> {
    line_events(conn_id, parsed_lines(lines(input), parse))
}

/// The lines that were read.
pub open spec fn read_lines(reads: Seq<(Option<usize>, Seq<char>)>) -> Seq<Seq<char>> {
    reads.map_values(|r: (Option<usize>, Seq<char>)| r.1)
}

/// The events that reads of lines make until one of them stops. A read is the
/// number of bytes read, nothing where it failed, with the line.
pub open spec fn read_events(
    conn_id: u128,
    reads: Seq<(Option<usize>, Seq<char>)>,
    parse: spec_fn(Seq<char>) -> Option<Seq<char>>,
) -> Seq<ServerEventModel>
    decreases reads.len(),
{
    if reads.len() == 0 || stops(reads.first().0) {
        Seq::empty()
    } else {
        seq![parsed_event(conn_id, parse(trimmed(reads.first().1)))] + read_events(
            conn_id,
            reads.drop_first(),
            parse,
        )
    }
}

/// What to do with the outcome of a read from a client's socket.
pub enum StreamStep {
    /// The stream has ended or failed.
    Stop,
    /// The text is to be parsed as a command.
    Parse { text: String },
}

/// Decides on a read of a line: `read` is the number of bytes read, nothing
/// where the read failed, and `msg` is the line.
pub fn stream_step(read: Option<usize>, msg: &str) -> (r: StreamStep)
    ensures
        r is Stop <==> stops(read),
        r matches StreamStep::Parse { text } ==> text@ == trimmed(msg@),
{
    match read {
        Some(size) => if size == 0 {
            StreamStep::Stop
        } else {
            StreamStep::Parse { text: trim_nulls(msg) }
        },
        None => StreamStep::Stop,
    }
}

/// The event that a line of a client makes: its command, or a reply to the
/// client where it is none.
pub fn line_event(conn_id: u128, parsed: Option<Command>) -> (r: ServerEvent)
    ensures
        r@ == parsed_event(
            conn_id,
            match parsed {
                Some(cmd) => Some(cmd@),
                None => None,
            },
        ),
{
    match parsed {
        Some(cmd) => ServerEvent::Command { conn_id, cmd },
        None => ServerEvent::Dispatch {
            conn_id,
            event: Event::Error { message: "json format error".to_owned() },
        },
    }
}

/// The events that the stream of a connection opens and closes with.
pub fn stream_of(conn_id: u128) -> (r: (ServerEvent, ServerEvent))
    ensures
        r.0 == (ServerEvent::Connect { conn_id }),
        r.1 == (ServerEvent::Close { conn_id }),
        forall|parsed: Seq<Option<Seq<char>>>| #[trigger]
            stream_events(conn_id, parsed) == seq![r.0@] + line_events(conn_id, parsed) + seq![r.1@],
{
    (ServerEvent::Connect { conn_id }, ServerEvent::Close { conn_id })
}

/// A new stream: the event that it opens with, the id that it has from then
/// on, and the event that it closes with.
pub fn handle_stream() -> (r: (ServerEvent, u128, ServerEvent))
    ensures
        r.0 == (ServerEvent::Connect { conn_id: r.1 }),
        r.2 == (ServerEvent::Close { conn_id: r.1 }),
        forall|parsed: Seq<Option<Seq<char>>>| #[trigger]
            stream_events(r.1, parsed) == seq![r.0@] + line_events(r.1, parsed) + seq![r.2@],
        is_random_id(r.1),
{
    let conn_id = new_id();
    let (opened, closed) = stream_of(conn_id);
    (opened, conn_id, closed)
}

/// The line in which an event is written to a socket.
pub fn event_line(json: String) -> (r: String)
    ensures
        r@ == json@ + "\n"@,
{
    json.concat("\n")
}

/// What is left of a message neither begins nor ends with a null character,
/// and nothing but such characters was taken away.
pub proof fn trimmed_is_the_middle(s: Seq<char>) -> (r: (int, int))
    ensures
        0 <= r.0 <= r.1 <= s.len(),
        trimmed(s) == s.subrange(r.0, r.1),
        forall|i: int| 0 <= i < s.len() && !(r.0 <= i < r.1) ==> #[trigger] s[i] == '\0',
        trimmed(s).len() > 0 ==> trimmed(s).first() != '\0' && trimmed(s).last() != '\0',
{
    let a = lemma_trimmed_start(s);
    let b = lemma_trimmed_end(s.skip(a));
    let t = s.skip(a).take(b);
    assert(t =~= s.subrange(a, a + b));
    assert forall|i: int| 0 <= i < s.len() && !(a <= i < a + b) implies #[trigger] s[i] == '\0' by {
        if i >= a + b {
            assert(s.skip(a)[i - a] == s[i]);
        }
    }
    if t.len() > 0 {
        assert(t.first() == s.skip(a).first());
    }
    (a, a + b)
}

/// Trimming twice is trimming once.
pub proof fn trimming_is_idempotent(s: Seq<char>)
    ensures
        trimmed(trimmed(s)) == trimmed(s),
{
    let _ = trimmed_is_the_middle(s);
}

/// Only the last character of a line can be a line break.
pub proof fn a_line_breaks_at_its_end(s: Seq<char>, k: int, i: int)
    requires
        0 <= k < lines(s).len(),
        0 <= i < lines(s)[k].len() - 1,
    ensures
        lines(s)[k][i] != '\n',
    decreases s.len(),
{
    lemma_line_len(s);
    let n = line_len(s) as int;
    if k == 0 {
        assert(lines(s)[0] == s.take(n));
        assert(s.take(n)[i] == s[i]);
    } else {
        assert(lines(s)[k] == lines(s.skip(n))[k - 1]);
        a_line_breaks_at_its_end(s.skip(n), k - 1, i);
    }
}

/// Nothing of what a client sends is lost: its lines make it up, in order, and
/// none of them is empty. Every line but the last ends with a line break.
pub proof fn text_is_made_of_its_lines(s: Seq<char>)
    ensures
        lines(s).flatten() == s,
        forall|k: int| 0 <= k < lines(s).len() ==> (#[trigger] lines(s)[k]).len() > 0,
        forall|k: int|
            0 <= k < lines(s).len() - 1 ==> (#[trigger] lines(s)[k]).last() == '\n',
    decreases s.len(),
{
    lemma_line_len(s);
    if s.len() > 0 {
        let n = line_len(s) as int;
        let rest = s.skip(n);
        text_is_made_of_its_lines(rest);
        assert(lines(s).first() == s.take(n));
        assert(lines(s).drop_first() =~= lines(rest));
        assert(s.take(n) + rest =~= s);
        assert forall|k: int| 0 <= k < lines(s).len() implies (#[trigger] lines(s)[k]).len() > 0 by {
            if k > 0 {
                assert(lines(s)[k] == lines(rest)[k - 1]);
            }
        }
        assert forall|k: int| 0 <= k < lines(s).len() - 1 implies (#[trigger] lines(s)[k]).last()
            == '\n' by {
            if k > 0 {
                assert(lines(s)[k] == lines(rest)[k - 1]);
            } else {
                assert(rest.len() > 0);
            }
        }
    }
}

/// Where one part of what a client sends ends with a line break, the lines of
/// the whole are those of that part and then those of the rest.
pub proof fn lines_follow_lines(a: Seq<char>, b: Seq<char>)
    requires
        a.len() == 0 || a.last() == '\n',
    ensures
        lines(a + b) == lines(a) + lines(b),
    decreases a.len(),
{
    if a.len() == 0 {
        assert(a + b =~= b);
        assert(lines(a) + lines(b) =~= lines(b));
    } else {
        lemma_line_len(a);
        lemma_line_len(a + b);
        lemma_line_len_prefix(a, b);
        let n = line_len(a) as int;
        let rest = a.skip(n);
        assert((a + b).take(n) =~= a.take(n));
        assert((a + b).skip(n) =~= rest + b);
        if rest.len() > 0 {
            assert(rest.last() == a.last());
        }
        lines_follow_lines(rest, b);
        assert(lines(a + b) =~= lines(a) + lines(b));
    }
}

/// The events of a client's lines come in the order of the lines, one for each.
pub proof fn line_events_follow_lines(
    conn_id: u128,
    a: Seq<Option<Seq<char>>>,
    b: Seq<Option<Seq<char>>>,
)
    ensures
        line_events(conn_id, a + b) == line_events(conn_id, a) + line_events(conn_id, b),
        line_events(conn_id, a).len() == a.len(),
{
    assert(line_events(conn_id, a + b) =~= line_events(conn_id, a) + line_events(conn_id, b));
}

/// Where one part of what a client sends ends with a line break, the events of
/// the whole are those of that part and then those of the rest: what came
/// before changes nothing of what a line makes.
pub proof fn text_events_follow_text(
    conn_id: u128,
    a: Seq<char>,
    b: Seq<char>,
    parse: spec_fn(Seq<char>) -> Option<Seq<char>>,
)
    requires
        a.len() == 0 || a.last() == '\n',
    ensures
        text_events(conn_id, a + b, parse) == text_events(conn_id, a, parse) + text_events(
            conn_id,
            b,
            parse,
        ),
{
    lines_follow_lines(a, b);
    assert(text_events(conn_id, a + b, parse) =~= text_events(conn_id, a, parse) + text_events(
        conn_id,
        b,
        parse,
    ));
}

/// `event` is what a line of the connection can make: a command of it, or the
/// reply to it that the line is none.
pub open spec fn speaks_for(event: ServerEventModel, conn_id: u128) -> bool {
    match event {
        ServerEventModel::Command { conn_id: c, cmd } => c == conn_id,
        ServerEventModel::Dispatch { conn_id: c, event } => c == conn_id && event == (
        EventModel::Error { message: "json format error"@ }),
        _ => false,
    }
}

/// A client's lines speak for its own connection and for no other, and neither
/// open nor close one.
pub proof fn lines_speak_for_their_connection(
    conn_id: u128,
    parsed: Seq<Option<Seq<char>>>,
    k: int,
)
    requires
        0 <= k < parsed.len(),
    ensures
        speaks_for(line_events(conn_id, parsed)[k], conn_id),
{
}

/// A stream opens its connection first and closes it last, each once, and
/// between them it speaks for that connection alone.
pub proof fn a_stream_opens_and_closes_once(
    conn_id: u128,
    parsed: Seq<Option<Seq<char>>>,
    k: int,
)
    requires
        0 <= k < stream_events(conn_id, parsed).len(),
    ensures
        ({
            let events = stream_events(conn_id, parsed);
            &&& events[k] is Connect <==> k == 0
            &&& events[k] is Close <==> k == events.len() - 1
            &&& events.first() == (ServerEventModel::Connect { conn_id })
            &&& events.last() == (ServerEventModel::Close { conn_id })
            &&& 0 < k < events.len() - 1 ==> speaks_for(events[k], conn_id)
        }),
{
    let events = stream_events(conn_id, parsed);
    if 0 < k < events.len() - 1 {
        assert(events[k] == line_events(conn_id, parsed)[k - 1]);
    }
}

/// The reads before the first that stops make the events of their lines, one
/// for each and in order, whether or not a line is a command. Nothing is made of
/// what is read after that.
pub proof fn reads_make_events_until_a_stop(
    conn_id: u128,
    reads: Seq<(Option<usize>, Seq<char>)>,
    parse: spec_fn(Seq<char>) -> Option<Seq<char>>,
    k: int,
)
    requires
        0 <= k <= reads.len(),
        forall|i: int| 0 <= i < k ==> !stops((#[trigger] reads[i]).0),
        k < reads.len() ==> stops(reads[k].0),
    ensures
        read_events(conn_id, reads, parse) == line_events(
            conn_id,
            parsed_lines(read_lines(reads.take(k)), parse),
        ),
    decreases reads.len(),
{
    let parsed = parsed_lines(read_lines(reads.take(k)), parse);
    if k == 0 {
        assert(line_events(conn_id, parsed) =~= Seq::empty());
    } else {
        let rest = reads.drop_first();
        assert forall|i: int| 0 <= i < k - 1 implies !stops((#[trigger] rest[i]).0) by {
            assert(rest[i] == reads[i + 1]);
        }
        reads_make_events_until_a_stop(conn_id, rest, parse, k - 1);
        assert(!stops(reads[0].0));
        assert(read_events(conn_id, reads, parse) =~= line_events(conn_id, parsed));
    }
}

/// Reads that bring the lines of a client's text one by one make the events of
/// that text.
pub proof fn reads_make_the_events_of_the_text(
    conn_id: u128,
    input: Seq<char>,
    reads: Seq<(Option<usize>, Seq<char>)>,
    parse: spec_fn(Seq<char>) -> Option<Seq<char>>,
)
    requires
        read_lines(reads) == lines(input),
        forall|i: int| 0 <= i < reads.len() ==> !stops((#[trigger] reads[i]).0),
    ensures
        read_events(conn_id, reads, parse) == text_events(conn_id, input, parse),
{
    reads_make_events_until_a_stop(conn_id, reads, parse, reads.len() as int);
    assert(reads.take(reads.len() as int) =~= reads);
}

/// The first line of a text that is not empty ends at the first line break.
pub proof fn lemma_line_len(s: Seq<char>)
    ensures
        line_len(s) <= s.len(),
        s.len() > 0 ==> line_len(s) > 0,
        forall|i: int| 0 <= i < line_len(s) - 1 ==> #[trigger] s[i] != '\n',
        line_len(s) < s.len() ==> s[line_len(s) - 1] == '\n',
    decreases s.len(),
{
    if s.len() > 0 && s.first() != '\n' {
        let t = s.drop_first();
        lemma_line_len(t);
        assert forall|i: int| 0 <= i < line_len(s) - 1 implies #[trigger] s[i] != '\n' by {
            if i > 0 {
                assert(t[i - 1] == s[i]);
            }
        }
    }
}

/// What follows a text that ends with a line break leaves its first line as it is.
proof fn lemma_line_len_prefix(a: Seq<char>, b: Seq<char>)
    requires
        a.len() > 0,
        a.last() == '\n',
    ensures
        line_len(a + b) == line_len(a),
    decreases a.len(),
{
    if a.first() != '\n' {
        assert((a + b).drop_first() =~= a.drop_first() + b);
        lemma_line_len_prefix(a.drop_first(), b);
    }
}

proof fn lemma_trimmed_start(s: Seq<char>) -> (a: int)
    ensures
        0 <= a <= s.len(),
        trimmed_start(s) == s.skip(a),
        forall|i: int| 0 <= i < a ==> #[trigger] s[i] == '\0',
        trimmed_start(s).len() > 0 ==> trimmed_start(s).first() != '\0',
    decreases s.len(),
{
    if s.len() > 0 && s.first() == '\0' {
        let b = lemma_trimmed_start(s.drop_first());
        assert(s.drop_first().skip(b) =~= s.skip(b + 1));
        assert forall|i: int| 0 <= i < b + 1 implies #[trigger] s[i] == '\0' by {
            if i > 0 {
                assert(s.drop_first()[i - 1] == s[i]);
            }
        }
        b + 1
    } else {
        assert(s.skip(0) =~= s);
        0
    }
}

proof fn lemma_trimmed_end(s: Seq<char>) -> (b: int)
    ensures
        0 <= b <= s.len(),
        trimmed_end(s) == s.take(b),
        forall|i: int| b <= i < s.len() ==> #[trigger] s[i] == '\0',
        trimmed_end(s).len() > 0 ==> trimmed_end(s).last() != '\0',
    decreases s.len(),
{
    if s.len() > 0 && s.last() == '\0' {
        let b = lemma_trimmed_end(s.drop_last());
        assert(s.drop_last().take(b) =~= s.take(b));
        assert forall|i: int| b <= i < s.len() implies #[trigger] s[i] == '\0' by {
            if i < s.len() - 1 {
                assert(s.drop_last()[i] == s[i]);
            }
        }
        b
    } else {
        assert(s.take(s.len() as int) =~= s);
        s.len() as int
    }
}

/// A line that is a command makes that command of its connection; any other
/// line makes the reply to its connection that it is none, and both do so in
/// the place of the line.
pub proof fn every_line_makes_its_own_event(
    conn_id: u128,
    parsed: Seq<Option<Seq<char>>>,
    k: int,
)
    requires
        0 <= k < parsed.len(),
    ensures
        line_events(conn_id, parsed).len() == parsed.len(),
        parsed[k] matches Some(cmd) ==> line_events(conn_id, parsed)[k] == (
        ServerEventModel::Command { conn_id, cmd }),
        parsed[k] is None ==> line_events(conn_id, parsed)[k] == (ServerEventModel::Dispatch {
            conn_id,
            event: EventModel::Error { message: "json format error"@ },
        }),
        stream_events(conn_id, parsed).len() == parsed.len() + 2,
        stream_events(conn_id, parsed)[k + 1] == line_events(conn_id, parsed)[k],
{
}

/// A read stops a stream exactly when it failed or brought no byte.
pub proof fn a_stream_stops_without_bytes(read: Option<usize>)
    ensures
        stops(read) <==> (read is None || read->0 == 0),
{
}

/// Every read that brought bytes, and before which all did, makes one event of
/// its own line without the null characters at its ends, in its place.
pub proof fn every_read_makes_its_own_event(
    conn_id: u128,
    reads: Seq<(Option<usize>, Seq<char>)>,
    parse: spec_fn(Seq<char>) -> Option<Seq<char>>,
    k: int,
)
    requires
        0 <= k < reads.len(),
        forall|i: int|
            0 <= i <= k ==> (#[trigger] reads[i]).0 is Some && reads[i].0->0 != 0,
    ensures
        k < read_events(conn_id, reads, parse).len(),
        parse(trimmed(reads[k].1)) matches Some(cmd) ==> read_events(conn_id, reads, parse)[k] == (
        ServerEventModel::Command { conn_id, cmd }),
        parse(trimmed(reads[k].1)) is None ==> read_events(conn_id, reads, parse)[k] == (
        ServerEventModel::Dispatch {
            conn_id,
            event: EventModel::Error { message: "json format error"@ },
        }),
    decreases k,
{
    assert(reads[0].0 is Some && reads[0].0->0 != 0);
    if k > 0 {
        let rest = reads.drop_first();
        assert forall|i: int| 0 <= i <= k - 1 implies (#[trigger] rest[i]).0 is Some
            && rest[i].0->0 != 0 by {
            assert(rest[i] == reads[i + 1]);
        }
        every_read_makes_its_own_event(conn_id, rest, parse, k - 1);
        assert(read_events(conn_id, reads, parse)[k] == read_events(conn_id, rest, parse)[k - 1]);
    }
}

/// Each line of a client's text is read on its own: what it makes is what
/// `parse` makes of it without the null characters at its ends.
pub proof fn every_line_of_a_text_makes_its_own_event(
    conn_id: u128,
    input: Seq<char>,
    parse: spec_fn(Seq<char>) -> Option<Seq<char>>,
    k: int,
)
    requires
        0 <= k < lines(input).len(),
    ensures
        text_events(conn_id, input, parse).len() == lines(input).len(),
        parse(trimmed(lines(input)[k])) matches Some(cmd) ==> text_events(conn_id, input, parse)[k]
            == (ServerEventModel::Command { conn_id, cmd }),
        parse(trimmed(lines(input)[k])) is None ==> text_events(conn_id, input, parse)[k] == (
        ServerEventModel::Dispatch {
            conn_id,
            event: EventModel::Error { message: "json format error"@ },
        }),
{
}

} // verus!
