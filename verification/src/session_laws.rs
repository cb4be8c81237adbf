//! What holds of every connection, whatever happens in it.

use vstd::prelude::*;
use crate::addr::{is_v4, is_v6, Endpoint};
use crate::block::{usable, Prefix};
use crate::config::Settings;
use crate::failure::Failure;
use crate::pump::PumpAction;
use crate::handshake::{dialogue, law_handshake_goes_on, DialogueStatus};
use crate::handshake::{credentials_message, law_no_entry_without_credentials, METHOD_PASSWORD};
use crate::request::{fail_bytes, law_request_never_overread, law_request_settled, reply_bytes};
use crate::request::{request_progress, RequestProgress, Target};
use crate::session::{answered_stage, demand, dispatched, egress_due, first_stage, next_stage, phase_of};
use crate::session::{preferred, refused, request_stage, Demand, Happening, Phase, Sequel};
use crate::session::{limit_of, relay_happening, Setup, Stage};
use crate::session::{COMMAND_BIND, COMMAND_CONNECT, COMMAND_UDP_ASSOCIATE};
use crate::session::{REPLY_COMMAND_UNSUPPORTED, REPLY_CONNECTION_REFUSED, REPLY_HOST_UNREACHABLE};
use crate::session::{REPLY_NOT_ALLOWED, REPLY_SUCCEEDED};

verus! {

/// Something that happens in a connection, and the random address used in what follows.
pub type Turn = (Happening, Option<Seq<u8>>);

/// The state that a new connection is in after all that happened in it.
pub open spec fn run(s: Settings, turns: Seq<Turn>) -> Stage
    decreases turns.len(),
{
    if turns.len() == 0 {
        first_stage()
    } else {
        let (e, egress) = turns.last();
        next_stage(s, run(s, turns.drop_last()), e, egress)
    }
}

/// What has been read after an event.
pub open spec fn heard_next(st: Stage, e: Happening, input: Seq<u8>) -> Seq<u8> {
    match (demand(st), e) {
        (Demand::Read(n), Happening::Bytes(b)) => if b.len() == n {
            input + b
        } else {
            input
        },
        _ => input,
    }
}

/// What has been written after an event.
pub open spec fn told_next(st: Stage, e: Happening, output: Seq<u8>) -> Seq<u8> {
    match (demand(st), e) {
        (Demand::Write(b), Happening::Done) => output + b,
        _ => output,
    }
}

/// All that has been read from the client because it was asked for.
pub open spec fn heard(s: Settings, turns: Seq<Turn>) -> Seq<u8>
    decreases turns.len(),
{
    if turns.len() == 0 {
        Seq::empty()
    } else {
        let before = turns.drop_last();
        heard_next(run(s, before), turns.last().0, heard(s, before))
    }
}

/// All that has been written to the client because it was asked for.
pub open spec fn told(s: Settings, turns: Seq<Turn>) -> Seq<u8>
    decreases turns.len(),
{
    if turns.len() == 0 {
        Seq::empty()
    } else {
        let before = turns.drop_last();
        told_next(run(s, before), turns.last().0, told(s, before))
    }
}

/// Whether some bytes are a handshake that has succeeded, to the last of them.
pub open spec fn admitted(s: Settings, input: Seq<u8>) -> bool {
    dialogue(s, input).status == DialogueStatus::Accepted(input.len())
}

/// Whether some bytes are a request, to the last of them.
pub open spec fn requested(input: Seq<u8>) -> bool {
    request_progress(input) matches RequestProgress::Ready { used, .. } && used == input.len()
}

/// Whether some bytes are the reply that a client gets which is given up for a reason.
pub open spec fn refusal(f: Failure, bytes: Seq<u8>) -> bool {
    match f {
        Failure::UnsupportedCommand => bytes == fail_bytes(REPLY_COMMAND_UNSUPPORTED),
        Failure::Ipv4Refused => bytes == fail_bytes(REPLY_NOT_ALLOWED),
        Failure::NoAddressFound => bytes == fail_bytes(REPLY_HOST_UNREACHABLE),
        Failure::ConnectTimedOut => bytes == fail_bytes(REPLY_CONNECTION_REFUSED),
        Failure::BindTimedOut => exists|local: Endpoint|
            bytes == #[trigger] reply_bytes(REPLY_CONNECTION_REFUSED, local),
        Failure::Io => bytes == fail_bytes(REPLY_HOST_UNREACHABLE) || bytes == fail_bytes(
            REPLY_CONNECTION_REFUSED,
        ),
        _ => false,
    }
}

/// How a state, what has been read from the client and what has been written to it belong
/// together.
pub open spec fn transcript(s: Settings, st: Stage, input: Seq<u8>, output: Seq<u8>) -> bool {
    match st {
        Stage::Handshake { received, sent, need } => {
            &&& received == input
            &&& dialogue(s, input).sent == output
            &&& dialogue(s, input).status == DialogueStatus::Need(need)
            &&& sent == output.len()
        },
        Stage::Answer { bytes, received, sent, status } => {
            &&& received == input
            &&& dialogue(s, input).sent == output + bytes
            &&& dialogue(s, input).status == status
            &&& sent == (output + bytes).len()
            &&& status is Accepted ==> admitted(s, input)
        },
        Stage::Request { received, need } => {
            &&& request_progress(received) == RequestProgress::Need(need)
            &&& exists|n: int|
                0 <= n <= input.len() && admitted(s, #[trigger] input.take(n)) && received
                    == input.skip(n) && output == dialogue(s, input.take(n)).sent
        },
        Stage::Reply { bytes, next } => {
            &&& let_through(s, input, output)
            &&& next matches Sequel::Close(f) ==> refusal(f, bytes)
        },
        Stage::Closed { failure } => closed_transcript(s, failure, input, output),
        _ => let_through(s, input, output),
    }
}

/// How the reason for which a connection was closed, what has been read from the client and what
/// has been written to it belong together. Where reading, writing or opening a socket failed there
/// is nothing to say.
pub open spec fn closed_transcript(
    s: Settings,
    failure: Option<Failure>,
    input: Seq<u8>,
    output: Seq<u8>,
) -> bool {
    match failure {
        None => let_through(s, input, output),
        Some(f) => match f {
            Failure::NotSocks5
            | Failure::NoMethods
            | Failure::NoAcceptableMethod
            | Failure::NotPasswordAuthentication
            | Failure::AuthenticationFailed => {
                &&& dialogue(s, input).status == DialogueStatus::Refused(f)
                &&& dialogue(s, input).sent == output
            },
            Failure::HandshakeTimedOut => output.is_prefix_of(dialogue(s, input).sent),
            Failure::NotSocks5Request
            | Failure::ReservedNotZero
            | Failure::UnsupportedAddressType
            | Failure::InvalidDomain => exists|n: int|
                0 <= n <= input.len() && admitted(s, #[trigger] input.take(n)) && request_progress(
                    input.skip(n),
                ) == RequestProgress::Refused(f) && output == dialogue(s, input.take(n)).sent,
            Failure::RequestTimedOut => exists|n: int|
                0 <= n <= input.len() && admitted(s, #[trigger] input.take(n)) && request_progress(
                    input.skip(n),
                ) is Need && output == dialogue(s, input.take(n)).sent,
            Failure::UnsupportedCommand
            | Failure::Ipv4Refused
            | Failure::NoAddressFound
            | Failure::ConnectTimedOut
            | Failure::BindTimedOut => ends_with_refusal(s, f, input, output),
            Failure::IdleTimedOut => let_through(s, input, output),
            Failure::Io => true,
        },
    }
}

/// Whether what has been written ends with the reply for a reason, and what was read and written
/// before it is a handshake that has succeeded and a request.
pub open spec fn ends_with_refusal(
    s: Settings,
    f: Failure,
    input: Seq<u8>,
    output: Seq<u8>,
) -> bool {
    exists|k: int|
        0 <= k <= output.len() && let_through(s, input, #[trigger] output.take(k)) && refusal(
            f,
            output.skip(k),
        )
}

/// Whether what has been read is a handshake that has succeeded and behind it a request, and what
/// has been written starts with the answers of that handshake.
pub open spec fn let_through(s: Settings, input: Seq<u8>, output: Seq<u8>) -> bool {
    exists|n: int|
        0 <= n <= input.len() && admitted(s, #[trigger] input.take(n)) && requested(input.skip(n))
            && dialogue(s, input.take(n)).sent.is_prefix_of(output)
}

/// Whether a state is one in which something is done for a client.
pub open spec fn serving(st: Stage) -> bool {
    phase_of(st) == Phase::Service && !(st is Closed)
}

/// Whether a state that tells a client that it is given up tells it why.
spec fn refuses_truly(st: Stage) -> bool {
    st matches Stage::Reply { bytes, next: Sequel::Close(f) } ==> refusal(f, bytes)
}

/// Whether a connection that is closed behind a state is so behind the reply that tells why, or for
/// a reason that no reply tells.
spec fn closes_truly(st: Stage, e: Happening, failure: Option<Failure>) -> bool {
    ||| failure is None
    ||| failure == Some(Failure::Io)
    ||| failure == Some(Failure::IdleTimedOut)
    ||| {
        &&& e is Done
        &&& st matches Stage::Reply { bytes, next: Sequel::Close(f) }
        &&& failure == Some(f)
        &&& refusal(f, bytes)
    }
}

proof fn lemma_serving_goes_on(s: Settings, st: Stage, e: Happening, egress: Option<Seq<u8>>)
    requires
        serving(st),
        refuses_truly(st),
    ensures
        serving(next_stage(s, st, e, egress)) || next_stage(s, st, e, egress) is Closed,
        refuses_truly(next_stage(s, st, e, egress)),
        next_stage(s, st, e, egress) matches Stage::Closed { failure } ==> closes_truly(
            st,
            e,
            failure,
        ),
        !(demand(st) is Read),
{
}

proof fn lemma_handshake_transcript(
    s: Settings,
    st: Stage,
    input: Seq<u8>,
    output: Seq<u8>,
    e: Happening,
    egress: Option<Seq<u8>>,
)
    requires
        transcript(s, st, input, output),
        st is Handshake || st is Answer,
    ensures
        transcript(
            s,
            next_stage(s, st, e, egress),
            heard_next(st, e, input),
            told_next(st, e, output),
        ),
{
    match st {
        Stage::Handshake { received, sent, need } => {
            if let Happening::Bytes(b) = e {
                if b.len() == need {
                    let all = input + b;
                    law_handshake_goes_on(s, input, b);
                    let d = dialogue(s, all);
                    if sent < d.sent.len() {
                        assert(d.sent =~= output + d.sent.skip(sent as int));
                    } else {
                        assert(d.sent =~= output);
                        if d.status is Accepted {
                            assert(all.take(all.len() as int) =~= all);
                            assert(all.skip(all.len() as int) =~= Seq::<u8>::empty());
                        }
                    }
                }
            }
        },
        Stage::Answer { bytes, received, sent, status } => {
            if e is Done {
                if status is Accepted {
                    assert(input.take(input.len() as int) =~= input);
                    assert(input.skip(input.len() as int) =~= Seq::<u8>::empty());
                }
            }
        },
        _ => {},
    }
}

proof fn lemma_request_transcript(
    s: Settings,
    st: Stage,
    input: Seq<u8>,
    output: Seq<u8>,
    e: Happening,
    egress: Option<Seq<u8>>,
)
    requires
        transcript(s, st, input, output),
        st is Request,
    ensures
        transcript(
            s,
            next_stage(s, st, e, egress),
            heard_next(st, e, input),
            told_next(st, e, output),
        ),
{
    let received = st->Request_received;
    let need = st->Request_need;
    let n = choose|n: int|
        0 <= n <= input.len() && admitted(s, #[trigger] input.take(n)) && received == input.skip(n)
            && output == dialogue(s, input.take(n)).sent;
    if let Happening::Bytes(b) = e {
        if b.len() == need {
            let all = input + b;
            law_request_never_overread(received, b);
            assert(all.take(n) =~= input.take(n));
            assert(all.skip(n) =~= received + b);
            let next = next_stage(s, st, e, egress);
            if request_progress(received + b) is Ready {
                assert(let_through(s, all, output));
                assert(serving(next));
                assert(refuses_truly(next));
            }
        }
    }
}

proof fn lemma_service_transcript(
    s: Settings,
    st: Stage,
    input: Seq<u8>,
    output: Seq<u8>,
    e: Happening,
    egress: Option<Seq<u8>>,
)
    requires
        transcript(s, st, input, output),
        serving(st),
    ensures
        transcript(
            s,
            next_stage(s, st, e, egress),
            heard_next(st, e, input),
            told_next(st, e, output),
        ),
{
    lemma_serving_goes_on(s, st, e, egress);
    let after = told_next(st, e, output);
    let n = choose|n: int|
        0 <= n <= input.len() && admitted(s, #[trigger] input.take(n)) && requested(input.skip(n))
            && dialogue(s, input.take(n)).sent.is_prefix_of(output);
    assert(dialogue(s, input.take(n)).sent.is_prefix_of(after));
    assert(let_through(s, input, after));
    if let Stage::Reply { bytes, next } = st {
        if e is Done {
            assert(after.take(output.len() as int) =~= output);
            assert(after.skip(output.len() as int) =~= bytes);
        }
    }
}

proof fn lemma_transcript_step(
    s: Settings,
    st: Stage,
    input: Seq<u8>,
    output: Seq<u8>,
    e: Happening,
    egress: Option<Seq<u8>>,
)
    requires
        transcript(s, st, input, output),
    ensures
        transcript(
            s,
            next_stage(s, st, e, egress),
            heard_next(st, e, input),
            told_next(st, e, output),
        ),
{
    if st is Handshake || st is Answer {
        lemma_handshake_transcript(s, st, input, output, e, egress);
    } else if st is Request {
        lemma_request_transcript(s, st, input, output, e, egress);
    } else if serving(st) {
        lemma_service_transcript(s, st, input, output, e, egress);
    }
}

/// What is read from a client and what is written to it fit together at every point of every
/// connection. During the handshake exactly the answers have been written that the protocol has
/// for what was read. A request is read only behind a handshake that has succeeded. Whatever is
/// done for a client is done behind such a handshake and a complete request, and not one byte
/// behind the request has been read. What was written before a connection was closed tells why.
pub proof fn law_transcript(s: Settings, turns: Seq<Turn>)
    ensures
        transcript(s, run(s, turns), heard(s, turns), told(s, turns)),
    decreases turns.len(),
{
    if turns.len() > 0 {
        let before = turns.drop_last();
        law_transcript(s, before);
        lemma_transcript_step(
            s,
            run(s, before),
            heard(s, before),
            told(s, before),
            turns.last().0,
            turns.last().1,
        );
    }
}

/// A client whose handshake is refused has been told just the answers that the protocol has for
/// what it sent, up to and with the refusal.
pub proof fn law_refused_handshakes_were_answered(s: Settings, turns: Seq<Turn>)
    requires
        run(s, turns) matches Stage::Closed { failure: Some(f) } && (f is NotSocks5 || f is NoMethods
            || f is NoAcceptableMethod || f is NotPasswordAuthentication
            || f is AuthenticationFailed),
    ensures
        told(s, turns) == dialogue(s, heard(s, turns)).sent,
        dialogue(s, heard(s, turns)).status == DialogueStatus::Refused(
            run(s, turns)->Closed_failure->0,
        ),
{
    law_transcript(s, turns);
}

/// A client whose request is well formed and was refused, or came to nothing in time, has been told
/// so: the last that was written to it is the reply for the reason.
pub proof fn law_refused_requests_were_answered(s: Settings, turns: Seq<Turn>)
    requires
        run(s, turns) matches Stage::Closed { failure: Some(f) } && (f is UnsupportedCommand
            || f is Ipv4Refused || f is NoAddressFound || f is ConnectTimedOut
            || f is BindTimedOut),
    ensures
        exists|k: int|
            0 <= k <= told(s, turns).len() && refusal(
                run(s, turns)->Closed_failure->0,
                #[trigger] told(s, turns).skip(k),
            ),
{
    law_transcript(s, turns);
    let f = run(s, turns)->Closed_failure->0;
    let input = heard(s, turns);
    let output = told(s, turns);
    let k = choose|k: int|
        0 <= k <= output.len() && let_through(s, input, #[trigger] output.take(k)) && refusal(
            f,
            output.skip(k),
        );
    assert(refusal(f, output.skip(k)));
}

/// Where there are credentials, nothing is done for a client that has not sent them: what was
/// read from it holds a greeting that offers to send them, and behind it the message with the
/// right user name and the right password.
pub proof fn law_credentials_before_service(s: Settings, turns: Seq<Turn>)
    requires
        s.credentials() is Some,
        serving(run(s, turns)) || run(s, turns) is Request,
    ensures
        ({
            let input = heard(s, turns);
            let (user, password) = s.credentials()->0;
            exists|end: int, n: int|
                2 <= end <= n <= input.len() && (#[trigger] input.subrange(2, end)).contains(
                    METHOD_PASSWORD,
                ) && (#[trigger] input.subrange(end, n)) == credentials_message(user, password)
        }),
{
    law_transcript(s, turns);
    let input = heard(s, turns);
    let n = choose|n: int| 0 <= n <= input.len() && admitted(s, #[trigger] input.take(n));
    let hello = input.take(n);
    law_no_entry_without_credentials(s, hello);
    let end = 2 + hello[1] as int;
    assert(input.subrange(2, end) =~= hello.subrange(2, end));
    assert(input.subrange(end, n) =~= hello.subrange(end, n));
}

/// Whether each thing that happens is just what was waited for in the handshake and the request:
/// so many bytes are read as were asked for, and what was to be written is written.
pub open spec fn obliging(s: Settings, turns: Seq<Turn>) -> bool
    decreases turns.len(),
{
    turns.len() == 0 || {
        let before = turns.drop_last();
        &&& obliging(s, before)
        &&& match (demand(run(s, before)), turns.last().0) {
            (Demand::Read(n), Happening::Bytes(b)) => b.len() == n,
            (Demand::Write(_), Happening::Done) => true,
            _ => false,
        }
    }
}

/// Whether a connection has come to a state by what it waited for, with just these bytes read from
/// the client and just the answers of its handshake written to it.
pub open spec fn arrived(
    s: Settings,
    turns: Seq<Turn>,
    input: Seq<u8>,
    hello: Seq<u8>,
    st: Stage,
) -> bool {
    &&& obliging(s, turns)
    &&& heard(s, turns) == input
    &&& told(s, turns) == dialogue(s, hello).sent
    &&& run(s, turns) == st
}

/// What one more turn adds.
proof fn lemma_one_more(s: Settings, turns: Seq<Turn>, turn: Turn)
    ensures
        turns.push(turn).drop_last() == turns,
        run(s, turns.push(turn)) == next_stage(s, run(s, turns), turn.0, turn.1),
        heard(s, turns.push(turn)) == heard_next(run(s, turns), turn.0, heard(s, turns)),
        told(s, turns.push(turn)) == told_next(run(s, turns), turn.0, told(s, turns)),
{
    assert(turns.push(turn).drop_last() =~= turns);
}

/// Within a handshake that succeeds, something is asked for until its end is reached, and nothing
/// behind it.
proof fn lemma_handshake_asks(s: Settings, h: Seq<u8>, hello: Seq<u8>)
    requires
        admitted(s, hello),
        h.is_prefix_of(hello),
        dialogue(s, h).status is Need,
    ensures
        ({
            let need = dialogue(s, h).status->Need_0;
            let now = hello.take((h.len() + need) as int);
            &&& 0 < need <= hello.len() - h.len()
            &&& now == h + hello.subrange(h.len() as int, (h.len() + need) as int)
            &&& now.len() < hello.len() ==> dialogue(s, now).status is Need
        }),
{
    let need = dialogue(s, h).status->Need_0;
    let rest = hello.skip(h.len() as int);
    assert(h + rest =~= hello);
    law_handshake_goes_on(s, h, rest);
    let b = hello.subrange(h.len() as int, (h.len() + need) as int);
    let now = h + b;
    assert(now =~= hello.take((h.len() + need) as int));
    law_handshake_goes_on(s, h, b);
    let left = hello.skip(now.len() as int);
    assert(now + left =~= hello);
    law_handshake_goes_on(s, now, left);
}

/// Reading what the handshake asks for, and sending what is left of the answer to it.
proof fn lemma_read_and_answer(s: Settings, turns: Seq<Turn>, b: Seq<u8>) -> (last: Seq<Turn>)
    requires
        obliging(s, turns),
        run(s, turns) matches Stage::Handshake { need, .. } && b.len() == need,
    ensures
        ({
            let now = heard(s, turns) + b;
            let d = dialogue(s, now);
            arrived(s, last, now, now, answered_stage(now, d.sent.len(), d.status))
        }),
{
    let h = heard(s, turns);
    let now = h + b;
    law_transcript(s, turns);
    law_handshake_goes_on(s, h, b);
    let d = dialogue(s, now);
    let before = told(s, turns);
    let read: Turn = (Happening::Bytes(b), None);
    let then = turns.push(read);
    lemma_one_more(s, turns, read);
    assert(obliging(s, then));
    if before.len() < d.sent.len() {
        let write: Turn = (Happening::Done, None);
        lemma_one_more(s, then, write);
        assert(before + d.sent.skip(before.len() as int) =~= d.sent);
        then.push(write)
    } else {
        assert(before =~= d.sent);
        then
    }
}

/// A client whose handshake succeeds gets to its request.
proof fn lemma_handshake_passes(s: Settings, turns: Seq<Turn>, hello: Seq<u8>) -> (done: Seq<Turn>)
    requires
        admitted(s, hello),
        obliging(s, turns),
        run(s, turns) is Handshake,
        heard(s, turns).is_prefix_of(hello),
    ensures
        arrived(s, done, hello, hello, Stage::Request { received: Seq::empty(), need: 1 }),
    decreases hello.len() - heard(s, turns).len(),
{
    let h = heard(s, turns);
    assert(dialogue(s, h).status == DialogueStatus::Need(run(s, turns)->Handshake_need)) by {
        law_transcript(s, turns);
    }
    let need = dialogue(s, h).status->Need_0;
    lemma_handshake_asks(s, h, hello);
    let end = (h.len() + need) as int;
    let last = lemma_read_and_answer(s, turns, hello.subrange(h.len() as int, end));
    if end == hello.len() {
        assert(hello.take(end) =~= hello);
        last
    } else {
        lemma_handshake_passes(s, last, hello)
    }
}

/// A client whose request is complete gets to where its command is begun.
proof fn lemma_request_passes(
    s: Settings,
    turns: Seq<Turn>,
    hello: Seq<u8>,
    received: Seq<u8>,
    request: Seq<u8>,
    need: nat,
    egress: Option<Seq<u8>>,
) -> (done: Seq<Turn>)
    requires
        requested(request),
        arrived(s, turns, hello + received, hello, Stage::Request { received, need }),
        request_progress(received) == RequestProgress::Need(need),
        received.is_prefix_of(request),
    ensures
        arrived(s, done, hello + request, hello, request_stage(s, request, egress)),
    decreases request.len() - received.len(),
{
    let rest = request.skip(received.len() as int);
    assert(received + rest =~= request);
    law_request_never_overread(received, rest);
    let b = rest.take(need as int);
    let now = received + b;
    let left = rest.skip(need as int);
    assert(now + left =~= request);
    law_request_never_overread(received, b);
    assert((hello + received) + b =~= hello + now);
    if left.len() == 0 {
        assert(now =~= request);
        let read: Turn = (Happening::Bytes(b), egress);
        lemma_one_more(s, turns, read);
        turns.push(read)
    } else {
        if !(request_progress(now) is Need) {
            law_request_settled(now, left);
        }
        let read: Turn = (Happening::Bytes(b), None);
        lemma_one_more(s, turns, read);
        assert(now.is_prefix_of(request));
        let more = request_progress(now)->Need_0;
        lemma_request_passes(s, turns.push(read), hello, now, request, more, egress)
    }
}

/// Every client that sends a handshake that succeeds and behind it a complete request is served: a
/// connection that is given the bytes as it asks for them, and whose answers go out, asks for all
/// of them and for none behind them, tells the client the answers of the handshake and nothing
/// else, and then begins the command of the request.
pub proof fn law_clients_are_served(
    s: Settings,
    hello: Seq<u8>,
    request: Seq<u8>,
    egress: Option<Seq<u8>>,
)
    requires
        admitted(s, hello),
        requested(request),
    ensures
        request_progress(request) matches RequestProgress::Ready { command, target, port, .. }
            && exists|turns: Seq<Turn>| #[trigger]
            arrived(
                s,
                turns,
                hello + request,
                hello,
                dispatched(s, command, target, port, egress),
            ),
{
    let start = Seq::<Turn>::empty();
    assert(heard(s, start).is_prefix_of(hello));
    let met = lemma_handshake_passes(s, start, hello);
    let none = Seq::<u8>::empty();
    assert(hello + none =~= hello);
    assert(none.is_prefix_of(request));
    let done = lemma_request_passes(s, met, hello, none, request, 1, egress);
    let p = request_progress(request);
    assert(arrived(
        s,
        done,
        hello + request,
        hello,
        dispatched(s, p->command, p->target, p->port, egress),
    ));
}

/// In every connection, a reply behind which the connection goes on says that the command was
/// carried out, and a reply behind which it is closed says why it was not.
pub proof fn law_replies_tell_the_truth(s: Settings, turns: Seq<Turn>)
    ensures
        run(s, turns) matches Stage::Reply { bytes, next } ==> match next {
            Sequel::Close(f) => refusal(f, bytes),
            _ => exists|a: Endpoint| bytes == #[trigger] reply_bytes(REPLY_SUCCEEDED, a),
        },
    decreases turns.len(),
{
    if turns.len() > 0 {
        law_replies_tell_the_truth(s, turns.drop_last());
    }
}

/// Requests that cannot be carried out are answered with the code for the reason, and then the
/// connection is closed: unknown commands, IPv4 targets where they are refused, names that cannot
/// be resolved or have no address, and targets that cannot be connected to, or not in time.
pub proof fn law_refused_requests_are_answered(
    s: Settings,
    command: u8,
    target: Target,
    port: u16,
    st: Stage,
    list: Seq<Endpoint>,
    egress: Option<Seq<u8>>,
)
    ensures
        command != COMMAND_CONNECT && command != COMMAND_BIND && command != COMMAND_UDP_ASSOCIATE
            ==> dispatched(s, command, target, port, egress) == refused(
            REPLY_COMMAND_UNSUPPORTED,
            Failure::UnsupportedCommand,
        ),
        s.refuses_ipv4() ==> (target matches Target::Ip(ip) ==> is_v4(ip) ==> dispatched(
            s,
            COMMAND_CONNECT,
            target,
            port,
            egress,
        ) == refused(REPLY_NOT_ALLOWED, Failure::Ipv4Refused)),
        st is Resolve ==> {
            &&& next_stage(s, st, Happening::Failed, egress) == refused(
                REPLY_HOST_UNREACHABLE,
                Failure::Io,
            )
            &&& list.len() == 0 ==> next_stage(s, st, Happening::Addresses(list), egress)
                == refused(REPLY_HOST_UNREACHABLE, Failure::NoAddressFound)
            &&& s.refuses_ipv4() && list.len() > 0 && is_v4(preferred(list, true).ip)
                ==> next_stage(s, st, Happening::Addresses(list), egress) == refused(
                REPLY_NOT_ALLOWED,
                Failure::Ipv4Refused,
            )
        },
        st is Connect ==> {
            &&& next_stage(s, st, Happening::Failed, egress) == refused(
                REPLY_CONNECTION_REFUSED,
                Failure::Io,
            )
            &&& next_stage(s, st, Happening::TimedOut, egress) == refused(
                REPLY_CONNECTION_REFUSED,
                Failure::ConnectTimedOut,
            )
        },
        forall|rep: u8, f: Failure|
            #![trigger refused(rep, f)]
            demand(refused(rep, f)) == Demand::Write(fail_bytes(rep)) && next_stage(
                s,
                refused(rep, f),
                Happening::Done,
                egress,
            ) == (Stage::Closed { failure: Some(f) }),
{
}

/// Where IPv4 targets are refused, no connection to one is ever made, whatever the client asks for
/// and whatever its names resolve to.
pub proof fn law_ipv4_never_dialled(s: Settings, turns: Seq<Turn>)
    requires
        s.refuses_ipv4(),
    ensures
        run(s, turns) matches Stage::Connect { target, .. } ==> !is_v4(target.ip),
    decreases turns.len(),
{
    if turns.len() > 0 {
        law_ipv4_never_dialled(s, turns.drop_last());
    }
}

/// Whether the random addresses used in a connection come from the blocks, and are used only where
/// they are needed.
pub open spec fn possible(setup: Setup, turns: Seq<Turn>) -> bool
    decreases turns.len(),
{
    turns.len() == 0 || {
        let before = turns.drop_last();
        &&& possible(setup, before)
        &&& egress_due(setup, run(setup.settings, before), turns.last().0, turns.last().1)
    }
}

/// Whether an address is a usable one of some block.
pub open spec fn from_blocks(blocks: Seq<Prefix>, ip: Seq<u8>) -> bool {
    exists|k: int| 0 <= k < blocks.len() && usable(#[trigger] blocks[k], ip)
}

/// Whether the addresses that a state binds to are those that it should bind to.
pub open spec fn sources_right(setup: Setup, st: Stage) -> bool {
    let random = setup.settings.random_egress_ipv6 && setup.blocks.len() > 0;
    match st {
        Stage::Connect { target, source } => if random && is_v6(target.ip) {
            source is Some && from_blocks(setup.blocks, source->0.ip)
        } else {
            source is None
        },
        Stage::Listen { at } => random && is_v6(at.ip) ==> from_blocks(setup.blocks, at.ip),
        Stage::OpenUdp { client, at } => {
            &&& is_v6(client.ip) <==> is_v6(at.ip)
            &&& random && is_v6(at.ip) ==> from_blocks(setup.blocks, at.ip)
        },
        _ => true,
    }
}

/// Where random sources are asked for and there are blocks, every connection to an IPv6 target
/// is made from a usable address of a block, and every IPv6 port for a BIND or for datagrams is
/// opened at one. Connections to IPv4 targets are left to the system, and so are all where random
/// sources are not asked for.
pub proof fn law_random_sources(setup: Setup, turns: Seq<Turn>)
    requires
        possible(setup, turns),
    ensures
        sources_right(setup, run(setup.settings, turns)),
    decreases turns.len(),
{
    if turns.len() > 0 {
        let before = turns.drop_last();
        law_random_sources(setup, before);
        let st = run(setup.settings, before);
        let (e, egress) = turns.last();
        assert(egress_due(setup, st, e, egress));
    }
}

/// A connection that is over stays so.
pub proof fn law_closed_is_final(s: Settings, st: Stage, e: Happening, egress: Option<Seq<u8>>)
    requires
        st is Closed,
    ensures
        next_stage(s, st, e, egress) == st,
{
}

/// A client whose target is looked up or connected to is told how it ended: no event closes the
/// connection before a reply has been sent.
pub proof fn law_failed_connects_are_told(
    s: Settings,
    st: Stage,
    e: Happening,
    egress: Option<Seq<u8>>,
)
    requires
        st is Resolve || st is Connect,
    ensures
        !(next_stage(s, st, e, egress) is Closed),
{
}

/// The place of a part of a connection in their order.
pub open spec fn place(phase: Phase) -> int {
    match phase {
        Phase::Handshake => 0,
        Phase::Request => 1,
        Phase::Service => 2,
    }
}

/// The handshake and the request are each limited by the same setting, and one that takes longer
/// ends the connection. No part of a connection is come back to, so that neither limit starts anew,
/// and nothing behind them is limited as a whole.
pub proof fn law_handshake_and_request_are_limited(
    s: Settings,
    st: Stage,
    e: Happening,
    egress: Option<Seq<u8>>,
)
    ensures
        limit_of(s, st) is Some <==> st is Handshake || st is Answer || st is Request,
        limit_of(s, st) is Some ==> limit_of(s, st) == Some(s.handshake_timeout_secs),
        st is Handshake || st is Answer ==> next_stage(s, st, Happening::TimedOut, egress) == (
        Stage::Closed { failure: Some(Failure::HandshakeTimedOut) }),
        st is Request ==> next_stage(s, st, Happening::TimedOut, egress) == (Stage::Closed {
            failure: Some(Failure::RequestTimedOut),
        }),
        place(phase_of(st)) <= place(phase_of(next_stage(s, st, e, egress))),
{
}

/// A connection whose bytes are relayed is over as soon as the relay ends, and for the reason for
/// which it ends.
pub proof fn law_relay_end_closes(s: Settings, action: PumpAction, egress: Option<Seq<u8>>)
    requires
        relay_happening(action) is Some,
    ensures
        next_stage(s, Stage::Relay, relay_happening(action)->0, egress) == (Stage::Closed {
            failure: match action {
                PumpAction::Fail(f) => if f == Failure::IdleTimedOut {
                    Some(f)
                } else {
                    Some(Failure::Io)
                },
                _ => None,
            },
        }),
{
}

/// Behind the request only connecting, waiting for the connection of a BIND, and being idle can
/// take too long; nothing else of the service has a limit.
pub proof fn law_service_has_no_overall_limit(s: Settings, st: Stage, egress: Option<Seq<u8>>)
    requires
        phase_of(st) == Phase::Service,
        !(st is Connect),
        !(st is Accept),
        !(st is Relay),
    ensures
        next_stage(s, st, Happening::TimedOut, egress) == st,
{
}

} // verus!
