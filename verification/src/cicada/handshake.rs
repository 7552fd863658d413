//! The SOCKS5 greeting, with optional username and password authentication.
//!
//! The master reads what [`HandshakeState::needed`] asks for, hands it to
//! [`HandshakeState::advance`], sends the reply, and goes on until the state is
//! [`HandshakeState::Done`]. The username is not checked here and the password never is: the
//! username only says which agent the client wants.

use vstd::prelude::*;

use crate::payload::optional_text;
use crate::reading::{law_labelled_number_is_read_back, tells};
use crate::text::{
    decimal_text,
    decode_text,
    labelled,
    number,
    utf8_fault_text,
    utf8_text,
    Utf8Fault,
};

verus! {

/// The protocol version of a SOCKS5 message.
pub const SOCKS_VERSION: u8 = 5;

/// The version of the username and password exchange.
pub const AUTH_VERSION: u8 = 1;

/// The method "no authentication required".
pub const METHOD_NONE: u8 = 0;

/// The method "username and password".
pub const METHOD_PASSWORD: u8 = 2;

/// Why a handshake is given up.
#[derive(Debug, Clone, Copy, PartialEq, Eq, Structural)]
pub enum HandshakeError {
    /// The greeting is for another version of SOCKS.
    UnsupportedVersion(u8),
    /// The authentication message is for another version.
    UnsupportedAuthVersion(u8),
    /// The username is not UTF-8.
    InvalidUsername(Utf8Fault),
}

/// An error in words.
pub open spec fn handshake_error_text(error: HandshakeError) -> Seq<char> {
    match error {
        HandshakeError::UnsupportedVersion(version) => "Unsupported SOCKS version: "@
            + decimal_text(version as nat),
        HandshakeError::UnsupportedAuthVersion(version) => "Unsupported auth version: "@
            + decimal_text(version as nat),
        HandshakeError::InvalidUsername(fault) => utf8_fault_text(fault),
    }
}

impl HandshakeError {
    /// The error in words.
    pub fn message(&self) -> (r: String)
        ensures
            r@ == handshake_error_text(*self),
    {
        match self {
            HandshakeError::UnsupportedVersion(version) => labelled(
                "Unsupported SOCKS version: ",
                number(*version as u64, 10).as_str(),
            ),
            HandshakeError::UnsupportedAuthVersion(version) => labelled(
                "Unsupported auth version: ",
                number(*version as u64, 10).as_str(),
            ),
            HandshakeError::InvalidUsername(fault) => fault.message(),
        }
    }
}

/// How far a handshake has come.
#[derive(Debug, PartialEq, Eq)]
#[allow(inconsistent_fields)]
pub enum HandshakeState {
    /// The version and the number of methods come next.
    Greeting,
    /// The client's methods come next.
    Methods { count: u8 },
    /// The authentication version and the length of the username come next.
    AuthHeader,
    /// The username comes next.
    Username { len: u8 },
    /// The length of the password comes next.
    PasswordLength { username: String },
    /// The password comes next.
    Password { username: String, len: u8 },
    /// The handshake is complete.
    Done { username: Option<String> },
}

/// What a [`HandshakeState`] stands for.
#[allow(inconsistent_fields)]
pub enum HandshakeView {
    Greeting,
    Methods { count: u8 },
    AuthHeader,
    Username { len: u8 },
    PasswordLength { username: Seq<char> },
    Password { username: Seq<char>, len: u8 },
    Done { username: Option<Seq<char>> },
}

impl View for HandshakeState {
    type V = HandshakeView;

    open spec fn view(&self) -> HandshakeView {
        match *self {
            HandshakeState::Greeting => HandshakeView::Greeting,
            HandshakeState::Methods { count } => HandshakeView::Methods { count },
            HandshakeState::AuthHeader => HandshakeView::AuthHeader,
            HandshakeState::Username { len } => HandshakeView::Username { len },
            HandshakeState::PasswordLength { username } => HandshakeView::PasswordLength {
                username: username@,
            },
            HandshakeState::Password { username, len } => HandshakeView::Password {
                username: username@,
                len,
            },
            HandshakeState::Done { username } => HandshakeView::Done {
                username: optional_text(username),
            },
        }
    }
}

impl HandshakeView {
    /// The number of bytes that the state waits for.
    pub open spec fn needed(self) -> nat {
        match self {
            HandshakeView::Greeting => 2,
            HandshakeView::Methods { count } => count as nat,
            HandshakeView::AuthHeader => 2,
            HandshakeView::Username { len } => len as nat,
            HandshakeView::PasswordLength { .. } => 1,
            HandshakeView::Password { len, .. } => len as nat,
            HandshakeView::Done { .. } => 0,
        }
    }

    /// The state that the awaited bytes lead to, and the bytes that are sent in reply.
    pub open spec fn advance(self, input: Seq<u8>) -> Result<
        (HandshakeView, Seq<u8>),
        HandshakeError,
    > {
        let silent = Seq::<u8>::empty();
        match self {
            HandshakeView::Greeting => if input[0] != SOCKS_VERSION {
                Err(HandshakeError::UnsupportedVersion(input[0]))
            } else {
                Ok((HandshakeView::Methods { count: input[1] }, silent))
            },
            HandshakeView::Methods { .. } => if input.contains(METHOD_PASSWORD) {
                Ok((HandshakeView::AuthHeader, seq![SOCKS_VERSION, METHOD_PASSWORD]))
            } else {
                Ok((HandshakeView::Done { username: None }, seq![SOCKS_VERSION, METHOD_NONE]))
            },
            HandshakeView::AuthHeader => if input[0] != AUTH_VERSION {
                Err(HandshakeError::UnsupportedAuthVersion(input[0]))
            } else {
                Ok((HandshakeView::Username { len: input[1] }, silent))
            },
            HandshakeView::Username { .. } => match utf8_text(input) {
                Ok(username) => Ok((HandshakeView::PasswordLength { username }, silent)),
                Err(fault) => Err(HandshakeError::InvalidUsername(fault)),
            },
            HandshakeView::PasswordLength { username } => Ok(
                (HandshakeView::Password { username, len: input[0] }, silent),
            ),
            HandshakeView::Password { username, .. } => Ok(
                (HandshakeView::Done { username: Some(username) }, seq![AUTH_VERSION, 0u8]),
            ),
            HandshakeView::Done { .. } => Ok((self, silent)),
        }
    }

    /// The number of steps that are left at most.
    pub open spec fn steps_left(self) -> nat {
        match self {
            HandshakeView::Greeting => 6,
            HandshakeView::Methods { .. } => 5,
            HandshakeView::AuthHeader => 4,
            HandshakeView::Username { .. } => 3,
            HandshakeView::PasswordLength { .. } => 2,
            HandshakeView::Password { .. } => 1,
            HandshakeView::Done { .. } => 0,
        }
    }

    /// What comes of feeding `input`, piece by piece, from this state on.
    pub open spec fn run(self, input: Seq<u8>) -> HandshakeRun
        decreases self.steps_left(),
    {
        let n = self.needed() as int;
        match self {
            HandshakeView::Done { username } => HandshakeRun {
                sent: Seq::empty(),
                end: HandshakeEnd::Complete { username, rest: input },
            },
            _ => if input.len() < n {
                HandshakeRun { sent: Seq::empty(), end: HandshakeEnd::Unfinished }
            } else {
                match self.advance(input.take(n)) {
                    Err(e) => HandshakeRun { sent: Seq::empty(), end: HandshakeEnd::Failed(e) },
                    Ok((next, reply)) => next.run(input.skip(n)).after(reply),
                }
            },
        }
    }
}

/// How the handshake over a stretch of input ends.
pub enum HandshakeEnd {
    /// The input stops before the handshake does.
    Unfinished,
    /// The handshake is given up.
    Failed(HandshakeError),
    /// The handshake is complete and `rest` is left over.
    Complete { username: Option<Seq<char>>, rest: Seq<u8> },
}

/// The handshake over a stretch of input: what is sent on the way, and how it ends.
pub struct HandshakeRun {
    pub sent: Seq<u8>,
    pub end: HandshakeEnd,
}

impl HandshakeRun {
    /// The same run with `reply` sent before it.
    pub open spec fn after(self, reply: Seq<u8>) -> HandshakeRun {
        HandshakeRun { sent: reply + self.sent, end: self.end }
    }

    /// A run in which nothing is sent.
    pub open spec fn silent(end: HandshakeEnd) -> HandshakeRun {
        HandshakeRun { sent: Seq::empty(), end }
    }
}

/// The handshake as a grammar: version, method count and methods, and then the authentication
/// if "username and password" is among the methods.
pub open spec fn handshake(input: Seq<u8>) -> HandshakeRun {
    if input.len() < 2 {
        HandshakeRun::silent(HandshakeEnd::Unfinished)
    } else if input[0] != SOCKS_VERSION {
        HandshakeRun::silent(HandshakeEnd::Failed(HandshakeError::UnsupportedVersion(input[0])))
    } else if input.len() < 2 + input[1] {
        HandshakeRun::silent(HandshakeEnd::Unfinished)
    } else {
        let methods = input.subrange(2, 2 + input[1]);
        let rest = input.skip(2 + input[1]);
        if methods.contains(METHOD_PASSWORD) {
            authentication(rest).after(seq![SOCKS_VERSION, METHOD_PASSWORD])
        } else {
            HandshakeRun {
                sent: seq![SOCKS_VERSION, METHOD_NONE],
                end: HandshakeEnd::Complete { username: None, rest },
            }
        }
    }
}

/// The authentication as a grammar: version, username and password, both with their length in
/// front.
pub open spec fn authentication(input: Seq<u8>) -> HandshakeRun {
    if input.len() < 2 {
        HandshakeRun::silent(HandshakeEnd::Unfinished)
    } else if input[0] != AUTH_VERSION {
        HandshakeRun::silent(
            HandshakeEnd::Failed(HandshakeError::UnsupportedAuthVersion(input[0])),
        )
    } else if input.len() < 2 + input[1] {
        HandshakeRun::silent(HandshakeEnd::Unfinished)
    } else {
        let after = input.skip(2 + input[1]);
        match utf8_text(input.subrange(2, 2 + input[1])) {
            Err(fault) => HandshakeRun::silent(
                HandshakeEnd::Failed(HandshakeError::InvalidUsername(fault)),
            ),
            Ok(username) => if after.len() < 1 || after.len() < 1 + after[0] {
                HandshakeRun::silent(HandshakeEnd::Unfinished)
            } else {
                HandshakeRun {
                    sent: seq![AUTH_VERSION, 0u8],
                    end: HandshakeEnd::Complete {
                        username: Some(username),
                        rest: after.skip(1 + after[0]),
                    },
                }
            },
        }
    }
}

/// The next state of a handshake and the bytes to send.
pub struct HandshakeStep {
    pub state: HandshakeState,
    pub reply: Vec<u8>,
}

/// Whether `byte` occurs in `bytes`.
fn contains_byte(bytes: &Vec<u8>, byte: u8) -> (r: bool)
    ensures
        r == bytes@.contains(byte),
{
    let mut i: usize = 0;
    while i < bytes.len()
        invariant
            i <= bytes@.len(),
            forall|j: int| 0 <= j < i ==> bytes@[j] != byte,
        decreases bytes@.len() - i,
    {
        if bytes[i] == byte {
            return true;
        }
        i = i + 1;
    }
    false
}

impl HandshakeState {
    /// The number of bytes to read before the next step.
    pub fn needed(&self) -> (r: usize)
        ensures
            r == self@.needed(),
    {
        match self {
            HandshakeState::Greeting => 2,
            HandshakeState::Methods { count } => *count as usize,
            HandshakeState::AuthHeader => 2,
            HandshakeState::Username { len } => *len as usize,
            HandshakeState::PasswordLength { .. } => 1,
            HandshakeState::Password { len, .. } => *len as usize,
            HandshakeState::Done { .. } => 0,
        }
    }

    /// Takes the bytes that the state waits for.
    pub fn advance(self, input: Vec<u8>) -> (r: Result<HandshakeStep, HandshakeError>)
        requires
            input@.len() == self@.needed(),
        ensures
            match r {
                Ok(step) => self@.advance(input@) == Ok::<_, HandshakeError>(
                    (step.state@, step.reply@),
                ),
                Err(e) => self@.advance(input@) == Err::<(HandshakeView, Seq<u8>), _>(e),
            },
    {
        match self {
            HandshakeState::Greeting => {
                if input[0] != SOCKS_VERSION {
                    return Err(HandshakeError::UnsupportedVersion(input[0]));
                }
                Ok(
                    HandshakeStep {
                        state: HandshakeState::Methods { count: input[1] },
                        reply: Vec::new(),
                    },
                )
            },
            HandshakeState::Methods { .. } => {
                if contains_byte(&input, METHOD_PASSWORD) {
                    let reply = vec![SOCKS_VERSION, METHOD_PASSWORD];
                    assert(reply@ =~= seq![SOCKS_VERSION, METHOD_PASSWORD]);
                    Ok(HandshakeStep { state: HandshakeState::AuthHeader, reply })
                } else {
                    let reply = vec![SOCKS_VERSION, METHOD_NONE];
                    assert(reply@ =~= seq![SOCKS_VERSION, METHOD_NONE]);
                    Ok(HandshakeStep { state: HandshakeState::Done { username: None }, reply })
                }
            },
            HandshakeState::AuthHeader => {
                if input[0] != AUTH_VERSION {
                    return Err(HandshakeError::UnsupportedAuthVersion(input[0]));
                }
                Ok(
                    HandshakeStep {
                        state: HandshakeState::Username { len: input[1] },
                        reply: Vec::new(),
                    },
                )
            },
            HandshakeState::Username { .. } => match decode_text(input) {
                Ok(username) => Ok(
                    HandshakeStep {
                        state: HandshakeState::PasswordLength { username },
                        reply: Vec::new(),
                    },
                ),
                Err(fault) => Err(HandshakeError::InvalidUsername(fault)),
            },
            HandshakeState::PasswordLength { username } => Ok(
                HandshakeStep {
                    state: HandshakeState::Password { username, len: input[0] },
                    reply: Vec::new(),
                },
            ),
            HandshakeState::Password { username, .. } => {
                let reply = vec![AUTH_VERSION, 0u8];
                assert(reply@ =~= seq![AUTH_VERSION, 0u8]);
                Ok(
                    HandshakeStep {
                        state: HandshakeState::Done { username: Some(username) },
                        reply,
                    },
                )
            },
            HandshakeState::Done { username } => Ok(
                HandshakeStep { state: HandshakeState::Done { username }, reply: Vec::new() },
            ),
        }
    }
}

proof fn lemma_silence(run: HandshakeRun)
    ensures
        run.after(Seq::empty()) == run,
{
    assert(run.after(Seq::empty()).sent =~= run.sent);
}

/// Feeding the authentication piece by piece gives what the grammar says.
proof fn lemma_authentication_run(input: Seq<u8>)
    ensures
        HandshakeView::AuthHeader.run(input) == authentication(input),
{
    if input.len() >= 2 && input[0] == AUTH_VERSION {
        let header = input.take(2);
        let s1 = HandshakeView::Username { len: header[1] };
        let in1 = input.skip(2);
        lemma_silence(s1.run(in1));
        assert(HandshakeView::AuthHeader.run(input) == s1.run(in1));
        let n = header[1] as int;
        if in1.len() >= n {
            assert(in1.take(n) =~= input.subrange(2, 2 + n));
            let in2 = in1.skip(n);
            assert(in2 =~= input.skip(2 + n));
            match utf8_text(in1.take(n)) {
                Err(_) => {},
                Ok(username) => {
                    let s2 = HandshakeView::PasswordLength { username };
                    lemma_silence(s2.run(in2));
                    assert(s1.run(in1) == s2.run(in2));
                    if in2.len() >= 1 {
                        let s3 = HandshakeView::Password { username, len: in2.take(1)[0] };
                        let in3 = in2.skip(1);
                        lemma_silence(s3.run(in3));
                        assert(s2.run(in2) == s3.run(in3));
                        let m = in2[0] as int;
                        if in3.len() >= m {
                            let s4 = HandshakeView::Done { username: Some(username) };
                            assert(in3.skip(m) =~= in2.skip(1 + m));
                            assert(s3.run(in3) == s4.run(in3.skip(m)).after(
                                seq![AUTH_VERSION, 0u8],
                            ));
                            assert(s3.run(in3).sent =~= seq![AUTH_VERSION, 0u8]);
                        }
                    }
                },
            }
        }
    }
}

/// Whatever a client sends, the handshake that takes it piece by piece does what the grammar
/// says: it sends the same bytes, and it waits, fails or completes alike.
pub proof fn law_handshake_follows_grammar(input: Seq<u8>)
    ensures
        HandshakeView::Greeting.run(input) == handshake(input),
{
    if input.len() >= 2 && input[0] == SOCKS_VERSION {
        let greeting = input.take(2);
        let s1 = HandshakeView::Methods { count: greeting[1] };
        let in1 = input.skip(2);
        lemma_silence(s1.run(in1));
        assert(HandshakeView::Greeting.run(input) == s1.run(in1));
        let n = greeting[1] as int;
        if in1.len() >= n {
            assert(in1.take(n) =~= input.subrange(2, 2 + n));
            assert(in1.skip(n) =~= input.skip(2 + n));
            if in1.take(n).contains(METHOD_PASSWORD) {
                lemma_authentication_run(in1.skip(n));
            } else {
                let done = HandshakeView::Done { username: None };
                assert(s1.run(in1) == done.run(in1.skip(n)).after(
                    seq![SOCKS_VERSION, METHOD_NONE],
                ));
                assert(s1.run(in1).sent =~= seq![SOCKS_VERSION, METHOD_NONE]);
            }
        }
    }
}

/// The greeting of a client that offers `methods`.
pub open spec fn greeting_message(methods: Seq<u8>) -> Seq<u8> {
    seq![SOCKS_VERSION, methods.len() as u8] + methods
}

/// The authentication message of a client.
pub open spec fn auth_message(username: Seq<char>, password: Seq<u8>) -> Seq<u8> {
    let name = vstd::utf8::encode_utf8(username);
    seq![AUTH_VERSION, name.len() as u8] + name + seq![password.len() as u8] + password
}

/// A client that offers "username and password" is asked for them, is told that it is
/// authenticated whatever its password, and is known by its username from then on.
pub proof fn law_any_password_is_accepted(
    methods: Seq<u8>,
    username: Seq<char>,
    password: Seq<u8>,
    rest: Seq<u8>,
)
    requires
        methods.len() <= 255,
        methods.contains(METHOD_PASSWORD),
        vstd::utf8::encode_utf8(username).len() <= 255,
        password.len() <= 255,
    ensures
        HandshakeView::Greeting.run(
            greeting_message(methods) + auth_message(username, password) + rest,
        ) == (HandshakeRun {
            sent: seq![SOCKS_VERSION, METHOD_PASSWORD, AUTH_VERSION, 0u8],
            end: HandshakeEnd::Complete { username: Some(username), rest },
        }),
{
    let auth = auth_message(username, password);
    let input = greeting_message(methods) + auth + rest;
    law_handshake_follows_grammar(input);
    assert(input.subrange(2, 2 + input[1]) =~= methods);
    let after = input.skip(2 + input[1]);
    assert(after =~= auth + rest);
    let name = vstd::utf8::encode_utf8(username);
    assert(after[0] == AUTH_VERSION);
    assert(after[1] == name.len());
    assert(after.subrange(2, 2 + after[1]) =~= name);
    vstd::utf8::encode_utf8_valid_utf8(username);
    vstd::utf8::encode_utf8_decode_utf8(username);
    let tail = after.skip(2 + after[1]);
    assert(tail =~= seq![password.len() as u8] + password + rest);
    assert(tail.skip(1 + tail[0]) =~= rest);
    assert(handshake(input).sent =~= seq![SOCKS_VERSION, METHOD_PASSWORD, AUTH_VERSION, 0u8]);
}

/// A client that does not offer "username and password" goes on without a username.
pub proof fn law_no_authentication_without_offer(methods: Seq<u8>, rest: Seq<u8>)
    requires
        methods.len() <= 255,
        !methods.contains(METHOD_PASSWORD),
    ensures
        HandshakeView::Greeting.run(greeting_message(methods) + rest) == (HandshakeRun {
            sent: seq![SOCKS_VERSION, METHOD_NONE],
            end: HandshakeEnd::Complete { username: None, rest },
        }),
{
    let input = greeting_message(methods) + rest;
    law_handshake_follows_grammar(input);
    assert(input.subrange(2, 2 + input[1]) =~= methods);
    assert(input.skip(2 + input[1]) =~= rest);
}

/// The texts of the errors tell what version the client asked for.
pub proof fn law_handshake_errors_tell_the_version(version: u8, fault: Utf8Fault)
    ensures
        tells(
            handshake_error_text(HandshakeError::UnsupportedVersion(version)),
            "Unsupported SOCKS version: "@,
            version as int,
        ),
        tells(
            handshake_error_text(HandshakeError::UnsupportedAuthVersion(version)),
            "Unsupported auth version: "@,
            version as int,
        ),
        handshake_error_text(HandshakeError::InvalidUsername(fault)) == utf8_fault_text(fault),
{
    law_labelled_number_is_read_back("Unsupported SOCKS version: "@, version as nat);
    law_labelled_number_is_read_back("Unsupported auth version: "@, version as nat);
}

/// A greeting for another version than five is refused without a word, whatever follows.
pub proof fn law_other_version_is_refused(input: Seq<u8>)
    requires
        input.len() >= 2,
        input[0] != 5,
    ensures
        HandshakeView::Greeting.run(input) == (HandshakeRun {
            sent: Seq::empty(),
            end: HandshakeEnd::Failed(HandshakeError::UnsupportedVersion(input[0])),
        }),
{
    law_handshake_follows_grammar(input);
}

/// An authentication message for another version than one is refused once it has been asked for,
/// whatever follows.
pub proof fn law_other_auth_version_is_refused(methods: Seq<u8>, rest: Seq<u8>)
    requires
        methods.len() <= 255,
        methods.contains(2u8),
        rest.len() >= 2,
        rest[0] != 1,
    ensures
        HandshakeView::Greeting.run(greeting_message(methods) + rest) == (HandshakeRun {
            sent: seq![5u8, 2u8],
            end: HandshakeEnd::Failed(HandshakeError::UnsupportedAuthVersion(rest[0])),
        }),
{
    let input = greeting_message(methods) + rest;
    law_handshake_follows_grammar(input);
    assert(input.subrange(2, 2 + input[1]) =~= methods);
    assert(input.skip(2 + input[1]) =~= rest);
    assert(handshake(input).sent =~= seq![5u8, 2u8]);
}

/// A username that is not UTF-8 is refused, and the client is not told that it is authenticated.
pub proof fn law_username_has_to_be_text(methods: Seq<u8>, name: Seq<u8>, rest: Seq<u8>)
    requires
        methods.len() <= 255,
        methods.contains(2u8),
        name.len() <= 255,
        !vstd::utf8::valid_utf8(name),
    ensures
        ({
            let run = HandshakeView::Greeting.run(
                greeting_message(methods) + seq![1u8, name.len() as u8] + name + rest,
            );
            &&& run.sent == seq![5u8, 2u8]
            &&& run.end matches HandshakeEnd::Failed(HandshakeError::InvalidUsername(fault))
            &&& utf8_text(name) == Err::<Seq<char>, _>(fault)
        }),
{
    let auth = seq![1u8, name.len() as u8] + name + rest;
    let input = greeting_message(methods) + seq![1u8, name.len() as u8] + name + rest;
    assert(input =~= greeting_message(methods) + auth);
    law_handshake_follows_grammar(input);
    assert(input.subrange(2, 2 + input[1]) =~= methods);
    assert(input.skip(2 + input[1]) =~= auth);
    assert(auth.subrange(2, 2 + auth[1]) =~= name);
    assert(handshake(input).sent =~= seq![5u8, 2u8]);
}

/// The handshake takes what belongs to it and no more: what follows a finished handshake changes
/// nothing about it and is left over, and what follows a refused one changes nothing.
pub proof fn law_handshake_takes_only_its_part(input: Seq<u8>, more: Seq<u8>)
    ensures
        ({
            let (a, b) = (
                HandshakeView::Greeting.run(input),
                HandshakeView::Greeting.run(input + more),
            );
            match a.end {
                HandshakeEnd::Complete { username, rest } => b == (HandshakeRun {
                    sent: a.sent,
                    end: HandshakeEnd::Complete { username, rest: rest + more },
                }),
                HandshakeEnd::Failed(_) => b == a,
                HandshakeEnd::Unfinished => true,
            }
        }),
{
    let all = input + more;
    law_handshake_follows_grammar(input);
    law_handshake_follows_grammar(all);
    if input.len() >= 2 && input.len() >= 2 + input[1] {
        let n = 2 + input[1];
        assert(all.subrange(2, n) =~= input.subrange(2, n));
        assert(all.skip(n) =~= input.skip(n) + more);
        let auth = input.skip(n);
        let auth_all = all.skip(n);
        if auth.len() >= 2 && auth.len() >= 2 + auth[1] {
            let m = 2 + auth[1];
            assert(auth_all.subrange(2, m) =~= auth.subrange(2, m));
            let after = auth.skip(m);
            assert(auth_all.skip(m) =~= after + more);
            if after.len() >= 1 && after.len() >= 1 + after[0] {
                assert((after + more).skip(1 + after[0]) =~= after.skip(1 + after[0]) + more);
            }
        }
    }
}

} // verus!
