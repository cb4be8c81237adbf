//! The handshake: choosing an authentication method, and authentication by user name and password.

use vstd::prelude::*;
use crate::auth::constant_time_eq;
use crate::config::{Config, Settings};
use crate::failure::Failure;
use crate::request::VERSION;

verus! {

/// The method of clients that do not authenticate.
pub const METHOD_NONE: u8 = 0;

/// The method of clients that give a user name and a password.
pub const METHOD_PASSWORD: u8 = 2;

/// The answer where no method will do.
pub const METHOD_UNACCEPTABLE: u8 = 0xff;

/// The version that authentication messages start with.
pub const AUTH_VERSION: u8 = 1;

/// How far the bytes received so far go towards a handshake.
#[derive(Clone, Copy, Debug, PartialEq, Eq, Structural)]
pub enum HandshakeStatus {
    /// So many more bytes are needed.
    Need(usize),
    /// The client may go on. The handshake is the first bytes, so many of them.
    Accepted(usize),
    /// The client may not go on.
    Refused(Failure),
}

/// Where a handshake stands: all bytes that go to the client up to now, and what comes next.
#[derive(Debug, PartialEq, Eq)]
pub struct Handshake {
    pub sent: Vec<u8>,
    pub status: HandshakeStatus,
}

/// What a [`Handshake`] stands for.
#[verifier::ext_equal]
pub struct Dialogue {
    pub sent: Seq<u8>,
    pub status: DialogueStatus,
}

/// What a [`HandshakeStatus`] stands for.
pub enum DialogueStatus {
    Need(nat),
    Accepted(nat),
    Refused(Failure),
}

impl View for HandshakeStatus {
    type V = DialogueStatus;

    open spec fn view(&self) -> DialogueStatus {
        match *self {
            HandshakeStatus::Need(n) => DialogueStatus::Need(n as nat),
            HandshakeStatus::Accepted(n) => DialogueStatus::Accepted(n as nat),
            HandshakeStatus::Refused(f) => DialogueStatus::Refused(f),
        }
    }
}

impl View for Handshake {
    type V = Dialogue;

    open spec fn view(&self) -> Dialogue {
        Dialogue { sent: self.sent@, status: self.status@ }
    }
}

/// The method that a client has to offer.
pub open spec fn method_wanted(s: Settings) -> u8 {
    if s.credentials() is Some {
        METHOD_PASSWORD
    } else {
        METHOD_NONE
    }
}

/// The handshake up to now. The client sends the version, the number of the methods that it
/// offers, and the methods. The answer is the version and the method wanted, or that no method
/// will do. Without credentials that is all; with them an authentication message follows.
pub open spec fn dialogue(s: Settings, input: Seq<u8>) -> Dialogue {
    let quiet = Seq::<u8>::empty();
    if input.len() == 0 {
        Dialogue { sent: quiet, status: DialogueStatus::Need(1) }
    } else if input[0] != VERSION {
        Dialogue { sent: quiet, status: DialogueStatus::Refused(Failure::NotSocks5) }
    } else if input.len() == 1 {
        Dialogue { sent: quiet, status: DialogueStatus::Need(1) }
    } else if input[1] == 0 {
        Dialogue {
            sent: seq![VERSION, METHOD_UNACCEPTABLE],
            status: DialogueStatus::Refused(Failure::NoMethods),
        }
    } else {
        let end = 2 + input[1] as int;
        if input.len() < end {
            Dialogue { sent: quiet, status: DialogueStatus::Need((end - input.len()) as nat) }
        } else if !input.subrange(2, end).contains(method_wanted(s)) {
            Dialogue {
                sent: seq![VERSION, METHOD_UNACCEPTABLE],
                status: DialogueStatus::Refused(Failure::NoAcceptableMethod),
            }
        } else {
            match s.credentials() {
                None => Dialogue {
                    sent: seq![VERSION, METHOD_NONE],
                    status: DialogueStatus::Accepted(end as nat),
                },
                Some((user, password)) => {
                    let auth = authentication(user, password, input.skip(end));
                    Dialogue {
                        sent: seq![VERSION, METHOD_PASSWORD] + auth.sent,
                        status: match auth.status {
                            DialogueStatus::Accepted(n) => DialogueStatus::Accepted(
                                (n + end) as nat,
                            ),
                            other => other,
                        },
                    }
                },
            }
        }
    }
}

/// The authentication up to now. The client sends the version of the message, the length of the
/// user name, the user name, the length of the password, and the password. The answer is the
/// version and 0 where both are right, or 1 where they are not.
pub open spec fn authentication(user: Seq<u8>, password: Seq<u8>, input: Seq<u8>) -> Dialogue {
    let quiet = Seq::<u8>::empty();
    if input.len() == 0 {
        Dialogue { sent: quiet, status: DialogueStatus::Need(1) }
    } else if input[0] != AUTH_VERSION {
        Dialogue {
            sent: quiet,
            status: DialogueStatus::Refused(Failure::NotPasswordAuthentication),
        }
    } else if input.len() == 1 {
        Dialogue { sent: quiet, status: DialogueStatus::Need(1) }
    } else {
        let u = 2 + input[1] as int;
        if input.len() < u {
            Dialogue { sent: quiet, status: DialogueStatus::Need((u - input.len()) as nat) }
        } else if input.len() == u {
            Dialogue { sent: quiet, status: DialogueStatus::Need(1) }
        } else {
            let p = u + 1 + input[u] as int;
            if input.len() < p {
                Dialogue { sent: quiet, status: DialogueStatus::Need((p - input.len()) as nat) }
            } else if input.subrange(2, u) == user && input.subrange(u + 1, p) == password {
                Dialogue {
                    sent: seq![AUTH_VERSION, 0],
                    status: DialogueStatus::Accepted(p as nat),
                }
            } else {
                Dialogue {
                    sent: seq![AUTH_VERSION, 1],
                    status: DialogueStatus::Refused(Failure::AuthenticationFailed),
                }
            }
        }
    }
}

fn answer(sent: Vec<u8>, status: HandshakeStatus) -> (r: Handshake)
    ensures
        r@ == (Dialogue { sent: sent@, status: status@ }),
{
    Handshake { sent, status }
}

fn two(a: u8, b: u8) -> (r: Vec<u8>)
    ensures
        r@ == seq![a, b],
{
    let mut v: Vec<u8> = Vec::with_capacity(2);
    v.push(a);
    v.push(b);
    assert(v@ =~= seq![a, b]);
    v
}

fn offers(methods: &[u8], wanted: u8) -> (r: bool)
    ensures
        r == methods@.contains(wanted),
{
    let mut i: usize = 0;
    while i < methods.len()
        invariant
            i <= methods@.len(),
            forall|k: int| 0 <= k < i ==> methods@[k] != wanted,
        decreases methods@.len() - i,
    {
        if methods[i] == wanted {
            return true;
        }
        i = i + 1;
    }
    false
}

/// The authentication, from what the client has sent up to now.
pub fn authenticate(user: &[u8], password: &[u8], input: &[u8]) -> (r: Handshake)
    ensures
        r@ == authentication(user@, password@, input@),
{
    if input.len() == 0 {
        return answer(Vec::new(), HandshakeStatus::Need(1));
    }
    if input[0] != AUTH_VERSION {
        return answer(
            Vec::new(),
            HandshakeStatus::Refused(Failure::NotPasswordAuthentication),
        );
    }
    if input.len() == 1 {
        return answer(Vec::new(), HandshakeStatus::Need(1));
    }
    let u: usize = 2 + input[1] as usize;
    if input.len() < u {
        return answer(Vec::new(), HandshakeStatus::Need(u - input.len()));
    }
    if input.len() == u {
        return answer(Vec::new(), HandshakeStatus::Need(1));
    }
    let p: usize = u + 1 + input[u] as usize;
    if input.len() < p {
        return answer(Vec::new(), HandshakeStatus::Need(p - input.len()));
    }
    let user_ok: bool = constant_time_eq(user, vstd::slice::slice_subrange(input, 2, u));
    let password_ok: bool = constant_time_eq(
        password,
        vstd::slice::slice_subrange(input, u + 1, p),
    );
    if user_ok && password_ok {
        answer(two(AUTH_VERSION, 0), HandshakeStatus::Accepted(p))
    } else {
        answer(
            two(AUTH_VERSION, 1),
            HandshakeStatus::Refused(Failure::AuthenticationFailed),
        )
    }
}

/// The handshake, from what the client has sent up to now.
pub fn handshake(config: &Config, received: &[u8]) -> (r: Handshake)
    ensures
        r@ == dialogue(config@, received@),
{
    if received.len() == 0 {
        return answer(Vec::new(), HandshakeStatus::Need(1));
    }
    if received[0] != VERSION {
        return answer(Vec::new(), HandshakeStatus::Refused(Failure::NotSocks5));
    }
    if received.len() == 1 {
        return answer(Vec::new(), HandshakeStatus::Need(1));
    }
    if received[1] == 0 {
        return answer(
            two(VERSION, METHOD_UNACCEPTABLE),
            HandshakeStatus::Refused(Failure::NoMethods),
        );
    }
    let end: usize = 2 + received[1] as usize;
    if received.len() < end {
        return answer(Vec::new(), HandshakeStatus::Need(end - received.len()));
    }
    let wanted: u8 = if config.auth_required() {
        METHOD_PASSWORD
    } else {
        METHOD_NONE
    };
    if !offers(vstd::slice::slice_subrange(received, 2, end), wanted) {
        return answer(
            two(VERSION, METHOD_UNACCEPTABLE),
            HandshakeStatus::Refused(Failure::NoAcceptableMethod),
        );
    }
    let mut sent = two(VERSION, wanted);
    match (&config.username, &config.password) {
        (Some(user), Some(password)) => {
            let rest = vstd::slice::slice_subrange(received, end, received.len());
            assert(rest@ =~= received@.skip(end as int));
            let user = user.as_str().as_bytes();
            let password = password.as_str().as_bytes();
            let auth = authenticate(user, password, rest);
            proof {
                lemma_accepted_within(user@, password@, rest@);
            }
            let mut more = auth.sent;
            sent.append(&mut more);
            let status = match auth.status {
                HandshakeStatus::Accepted(n) => HandshakeStatus::Accepted(n + end),
                other => other,
            };
            answer(sent, status)
        },
        _ => answer(sent, HandshakeStatus::Accepted(end)),
    }
}

/// An authentication that has succeeded lies within the bytes that were received.
proof fn lemma_accepted_within(user: Seq<u8>, password: Seq<u8>, input: Seq<u8>)
    ensures
        authentication(user, password, input).status matches DialogueStatus::Accepted(n) ==> n
            <= input.len(),
{
}

/// What more input adds to an authentication: nothing is taken back, and nothing is asked for
/// beyond its end.
proof fn lemma_authentication_goes_on(
    user: Seq<u8>,
    password: Seq<u8>,
    input: Seq<u8>,
    more: Seq<u8>,
)
    ensures
        ({
            let now = authentication(user, password, input);
            let then = authentication(user, password, input + more);
            &&& now.sent.is_prefix_of(then.sent)
            &&& match now.status {
                DialogueStatus::Need(n) => {
                    &&& n > 0
                    &&& more.len() < n ==> then == Dialogue {
                        sent: now.sent,
                        status: DialogueStatus::Need((n - more.len()) as nat),
                    }
                    &&& more.len() == n ==> match then.status {
                        DialogueStatus::Accepted(used) => used == (input + more).len(),
                        _ => true,
                    }
                },
                _ => then == now,
            }
        }),
{
    let all = input + more;
    if input.len() == 0 {
        assert(all =~= more);
    } else {
        assert(all[0] == input[0]);
        if input.len() > 1 {
            assert(all[1] == input[1]);
            let u = 2 + input[1] as int;
            if input.len() > u {
                assert(all[u] == input[u]);
                let p = u + 1 + input[u] as int;
                if input.len() >= p {
                    assert(all.subrange(2, u) =~= input.subrange(2, u));
                    assert(all.subrange(u + 1, p) =~= input.subrange(u + 1, p));
                }
            }
        }
        if more.len() == 0 {
            assert(all =~= input);
        }
    }
}

/// What is sent to the client is never taken back: with more input, the bytes sent before are
/// still the first of those sent. What the handshake came to stays, whatever comes behind it.
/// While bytes are asked for, they are at least one; before all of them have come, just the rest
/// of them is asked for; and once they have come the handshake, if it has succeeded, ends with the
/// last of them. So none of what the client sends behind the handshake is read with it.
pub proof fn law_handshake_goes_on(s: Settings, input: Seq<u8>, more: Seq<u8>)
    ensures
        ({
            let now = dialogue(s, input);
            let then = dialogue(s, input + more);
            &&& now.sent.is_prefix_of(then.sent)
            &&& match now.status {
                DialogueStatus::Need(n) => {
                    &&& n > 0
                    &&& more.len() < n ==> then == Dialogue {
                        sent: now.sent,
                        status: DialogueStatus::Need((n - more.len()) as nat),
                    }
                    &&& more.len() == n ==> match then.status {
                        DialogueStatus::Accepted(used) => used == (input + more).len(),
                        _ => true,
                    }
                },
                _ => then == now,
            }
        }),
{
    let all = input + more;
    if input.len() == 0 {
        assert(all =~= more);
    } else {
        assert(all[0] == input[0]);
        if input.len() > 1 {
            assert(all[1] == input[1]);
            let end = 2 + input[1] as int;
            if input.len() >= end {
                assert(all.subrange(2, end) =~= input.subrange(2, end));
                assert(all.skip(end) =~= input.skip(end) + more);
                if s.credentials() is Some {
                    let (user, password) = s.credentials()->0;
                    lemma_authentication_goes_on(user, password, input.skip(end), more);
                }
            } else if all.len() == end {
                assert(all.skip(end) =~= Seq::<u8>::empty());
            }
        }
        if more.len() == 0 {
            assert(all =~= input);
        }
    }
}

/// The greeting of a client that offers some methods.
pub open spec fn greeting(methods: Seq<u8>) -> Seq<u8> {
    seq![VERSION, methods.len() as u8] + methods
}

/// The message of a client that gives a user name and a password.
pub open spec fn credentials_message(user: Seq<u8>, password: Seq<u8>) -> Seq<u8> {
    seq![AUTH_VERSION, user.len() as u8] + user + seq![password.len() as u8] + password
}

/// Without credentials a client passes if it offers to go without authentication, and no client
/// passes otherwise; no authentication is asked for.
pub proof fn law_open_proxy(s: Settings, methods: Seq<u8>)
    requires
        s.credentials() is None,
        1 <= methods.len() <= 255,
    ensures
        methods.contains(METHOD_NONE) ==> dialogue(s, greeting(methods)) == (Dialogue {
            sent: seq![VERSION, METHOD_NONE],
            status: DialogueStatus::Accepted(greeting(methods).len()),
        }),
        !methods.contains(METHOD_NONE) ==> dialogue(s, greeting(methods)) == (Dialogue {
            sent: seq![VERSION, METHOD_UNACCEPTABLE],
            status: DialogueStatus::Refused(Failure::NoAcceptableMethod),
        }),
{
    let input = greeting(methods);
    assert(input.subrange(2, 2 + methods.len() as int) =~= methods);
}

/// With credentials a client that does not offer to give them is turned away, and one that offers
/// passes exactly if it gives the right ones.
pub proof fn law_guarded_proxy(s: Settings, methods: Seq<u8>, user: Seq<u8>, password: Seq<u8>)
    requires
        s.credentials() is Some,
        1 <= methods.len() <= 255,
        user.len() <= 255,
        password.len() <= 255,
    ensures
        !methods.contains(METHOD_PASSWORD) ==> dialogue(s, greeting(methods)) == (Dialogue {
            sent: seq![VERSION, METHOD_UNACCEPTABLE],
            status: DialogueStatus::Refused(Failure::NoAcceptableMethod),
        }),
        methods.contains(METHOD_PASSWORD) ==> dialogue(s, greeting(methods)) == (Dialogue {
            sent: seq![VERSION, METHOD_PASSWORD],
            status: DialogueStatus::Need(1),
        }),
        methods.contains(METHOD_PASSWORD) ==> dialogue(
            s,
            greeting(methods) + credentials_message(user, password),
        ) == (if s.credentials() == Some((user, password)) {
            Dialogue {
                sent: seq![VERSION, METHOD_PASSWORD, AUTH_VERSION, 0],
                status: DialogueStatus::Accepted(
                    (greeting(methods) + credentials_message(user, password)).len(),
                ),
            }
        } else {
            Dialogue {
                sent: seq![VERSION, METHOD_PASSWORD, AUTH_VERSION, 1],
                status: DialogueStatus::Refused(Failure::AuthenticationFailed),
            }
        }),
{
    let hello = greeting(methods);
    let end = hello.len() as int;
    let message = credentials_message(user, password);
    let input = hello + message;
    let (u, p) = s.credentials()->0;
    assert(hello.subrange(2, end) =~= methods);
    assert(hello.skip(end) =~= Seq::<u8>::empty());
    assert(input.subrange(2, end) =~= methods);
    assert(input.skip(end) =~= message);
    assert(seq![VERSION, METHOD_PASSWORD] + Seq::<u8>::empty() =~= seq![VERSION, METHOD_PASSWORD]);
    let m = 2 + user.len() as int;
    assert(message.subrange(2, m) =~= user);
    assert(message[m] == password.len() as u8);
    assert(message.subrange(m + 1, m + 1 + password.len()) =~= password);
    assert(seq![VERSION, METHOD_PASSWORD] + seq![AUTH_VERSION, 0] =~= seq![
        VERSION,
        METHOD_PASSWORD,
        AUTH_VERSION,
        0,
    ]);
    assert(seq![VERSION, METHOD_PASSWORD] + seq![AUTH_VERSION, 1] =~= seq![
        VERSION,
        METHOD_PASSWORD,
        AUTH_VERSION,
        1,
    ]);
}

/// Where there are credentials, a handshake succeeds only if the client has sent them: what it
/// sent is a greeting that offers to, followed by the message that holds them.
pub proof fn law_no_entry_without_credentials(s: Settings, input: Seq<u8>)
    requires
        s.credentials() is Some,
        dialogue(s, input).status is Accepted,
    ensures
        ({
            let (user, password) = s.credentials()->0;
            let used = dialogue(s, input).status->Accepted_0;
            let end = 2 + input[1] as int;
            &&& used <= input.len()
            &&& user.len() <= 255 && password.len() <= 255
            &&& input.subrange(2, end).contains(METHOD_PASSWORD)
            &&& input.subrange(end, used as int) == credentials_message(user, password)
        }),
{
    let (user, password) = s.credentials()->0;
    let used = dialogue(s, input).status->Accepted_0;
    let end = 2 + input[1] as int;
    let message = input.skip(end);
    let u = 2 + message[1] as int;
    let p = u + 1 + message[u] as int;
    assert(message.subrange(2, u) == user);
    assert(message.subrange(u + 1, p) == password);
    let expected = credentials_message(user, password);
    let got = input.subrange(end, used as int);
    assert(got.len() == expected.len());
    assert forall|k: int| 0 <= k < got.len() implies got[k] == expected[k] by {
        assert(got[k] == message[k]);
        if 2 <= k < u {
            assert(user[k - 2] == message[k]);
        } else if u + 1 <= k {
            assert(password[k - u - 1] == message[k]);
        }
    }
    assert(got =~= expected);
}

} // verus!
