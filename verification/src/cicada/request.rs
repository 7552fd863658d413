//! The SOCKS5 CONNECT request: which host and port the client wants.
//!
//! The master reads what [`RequestState::needed`] asks for and hands it to
//! [`RequestState::advance`], until the state is [`RequestState::Done`].

use vstd::prelude::*;

use crate::address::{ipv4, ipv4_text, ipv6, ipv6_text};
use crate::cicada::handshake::SOCKS_VERSION;
use crate::reading::{law_labelled_number_is_read_back, tells};
use crate::target::{ConnectTarget, TargetView, ADDRESS_DOMAIN, ADDRESS_IPV4, ADDRESS_IPV6};
use crate::text::{
    decimal_text,
    decode_text,
    labelled,
    number,
    utf8_fault_text,
    utf8_text,
    Utf8Fault,
};

verus! {

/// The command CONNECT.
pub const COMMAND_CONNECT: u8 = 1;

/// Why a request is given up.
#[derive(Debug, Clone, Copy, PartialEq, Eq, Structural)]
pub enum RequestError {
    /// The request is for another version of SOCKS.
    UnsupportedVersion(u8),
    /// The command is not CONNECT.
    UnsupportedCommand(u8),
    /// The target is neither an IPv4 address, nor a domain name, nor an IPv6 address.
    UnsupportedAddressType(u8),
    /// The domain name is not UTF-8.
    InvalidDomain(Utf8Fault),
}

/// An error in words.
pub open spec fn request_error_text(error: RequestError) -> Seq<char> {
    match error {
        RequestError::UnsupportedVersion(version) =>
            "Unsupported SOCKS version in connect request: "@ + decimal_text(version as nat),
        RequestError::UnsupportedCommand(command) => "Unsupported SOCKS command: "@
            + decimal_text(command as nat),
        RequestError::UnsupportedAddressType(address_type) => "Unsupported address type: "@
            + decimal_text(address_type as nat),
        RequestError::InvalidDomain(fault) => utf8_fault_text(fault),
    }
}

impl RequestError {
    /// The error in words.
    pub fn message(&self) -> (r: String)
        ensures
            r@ == request_error_text(*self),
    {
        match self {
            RequestError::UnsupportedVersion(version) => labelled(
                "Unsupported SOCKS version in connect request: ",
                number(*version as u64, 10).as_str(),
            ),
            RequestError::UnsupportedCommand(command) => labelled(
                "Unsupported SOCKS command: ",
                number(*command as u64, 10).as_str(),
            ),
            RequestError::UnsupportedAddressType(address_type) => labelled(
                "Unsupported address type: ",
                number(*address_type as u64, 10).as_str(),
            ),
            RequestError::InvalidDomain(fault) => fault.message(),
        }
    }
}

/// How far a request has been read.
#[derive(Debug, PartialEq, Eq)]
pub enum RequestState {
    /// The version, the command, a reserved byte and the address type come next.
    Header,
    /// An IPv4 address comes next.
    Ipv4,
    /// The length of a domain name comes next.
    DomainLength,
    /// A domain name comes next.
    Domain { len: u8 },
    /// An IPv6 address comes next.
    Ipv6,
    /// The port comes next.
    Port { address_type: u8, target_addr: String },
    /// The request has been read.
    Done { target: ConnectTarget },
}

/// What a [`RequestState`] stands for.
pub enum RequestView {
    Header,
    Ipv4,
    DomainLength,
    Domain { len: u8 },
    Ipv6,
    Port { address_type: u8, target_addr: Seq<char> },
    Done { target: TargetView },
}

impl View for RequestState {
    type V = RequestView;

    open spec fn view(&self) -> RequestView {
        match *self {
            RequestState::Header => RequestView::Header,
            RequestState::Ipv4 => RequestView::Ipv4,
            RequestState::DomainLength => RequestView::DomainLength,
            RequestState::Domain { len } => RequestView::Domain { len },
            RequestState::Ipv6 => RequestView::Ipv6,
            RequestState::Port { address_type, target_addr } => RequestView::Port {
                address_type,
                target_addr: target_addr@,
            },
            RequestState::Done { target } => RequestView::Done { target: target@ },
        }
    }
}

/// The port that two bytes in network order stand for.
pub open spec fn port_number(bytes: Seq<u8>) -> u16 {
    (bytes[0] * 256 + bytes[1]) as u16
}

impl RequestView {
    /// The number of bytes that the state waits for.
    pub open spec fn needed(self) -> nat {
        match self {
            RequestView::Header => 4,
            RequestView::Ipv4 => 4,
            RequestView::DomainLength => 1,
            RequestView::Domain { len } => len as nat,
            RequestView::Ipv6 => 16,
            RequestView::Port { .. } => 2,
            RequestView::Done { .. } => 0,
        }
    }

    /// The state that the awaited bytes lead to.
    pub open spec fn advance(self, input: Seq<u8>) -> Result<RequestView, RequestError> {
        match self {
            RequestView::Header => if input[0] != SOCKS_VERSION {
                Err(RequestError::UnsupportedVersion(input[0]))
            } else if input[1] != COMMAND_CONNECT {
                Err(RequestError::UnsupportedCommand(input[1]))
            } else if input[3] == ADDRESS_IPV4 {
                Ok(RequestView::Ipv4)
            } else if input[3] == ADDRESS_DOMAIN {
                Ok(RequestView::DomainLength)
            } else if input[3] == ADDRESS_IPV6 {
                Ok(RequestView::Ipv6)
            } else {
                Err(RequestError::UnsupportedAddressType(input[3]))
            },
            RequestView::Ipv4 => Ok(
                RequestView::Port { address_type: ADDRESS_IPV4, target_addr: ipv4_text(input) },
            ),
            RequestView::DomainLength => Ok(RequestView::Domain { len: input[0] }),
            RequestView::Domain { .. } => match utf8_text(input) {
                Ok(name) => Ok(
                    RequestView::Port { address_type: ADDRESS_DOMAIN, target_addr: name },
                ),
                Err(fault) => Err(RequestError::InvalidDomain(fault)),
            },
            RequestView::Ipv6 => Ok(
                RequestView::Port { address_type: ADDRESS_IPV6, target_addr: ipv6_text(input) },
            ),
            RequestView::Port { address_type, target_addr } => Ok(
                RequestView::Done {
                    target: TargetView {
                        address_type,
                        target_addr,
                        target_port: port_number(input),
                    },
                },
            ),
            RequestView::Done { .. } => Ok(self),
        }
    }

    /// The number of steps that are left at most.
    pub open spec fn steps_left(self) -> nat {
        match self {
            RequestView::Header => 4,
            RequestView::DomainLength => 3,
            RequestView::Ipv4 => 2,
            RequestView::Domain { .. } => 2,
            RequestView::Ipv6 => 2,
            RequestView::Port { .. } => 1,
            RequestView::Done { .. } => 0,
        }
    }

    /// What comes of feeding `input`, piece by piece, from this state on.
    pub open spec fn run(self, input: Seq<u8>) -> RequestEnd
        decreases self.steps_left(),
    {
        let n = self.needed() as int;
        match self {
            RequestView::Done { target } => RequestEnd::Complete { target, rest: input },
            _ => if input.len() < n {
                RequestEnd::Unfinished
            } else {
                match self.advance(input.take(n)) {
                    Err(e) => RequestEnd::Failed(e),
                    Ok(next) => next.run(input.skip(n)),
                }
            },
        }
    }
}

/// How the reading of a request ends.
pub enum RequestEnd {
    /// The input stops before the request does.
    Unfinished,
    /// The request is given up.
    Failed(RequestError),
    /// The request is complete and `rest` is left over.
    Complete { target: TargetView, rest: Seq<u8> },
}

/// A request as a grammar: version, command, a reserved byte, address type, address and port.
pub open spec fn connect_request(input: Seq<u8>) -> RequestEnd {
    if input.len() < 4 {
        RequestEnd::Unfinished
    } else if input[0] != SOCKS_VERSION {
        RequestEnd::Failed(RequestError::UnsupportedVersion(input[0]))
    } else if input[1] != COMMAND_CONNECT {
        RequestEnd::Failed(RequestError::UnsupportedCommand(input[1]))
    } else if input[3] == ADDRESS_IPV4 {
        if input.len() < 8 {
            RequestEnd::Unfinished
        } else {
            with_port(ADDRESS_IPV4, ipv4_text(input.subrange(4, 8)), input.skip(8))
        }
    } else if input[3] == ADDRESS_DOMAIN {
        if input.len() < 5 || input.len() < 5 + input[4] {
            RequestEnd::Unfinished
        } else {
            match utf8_text(input.subrange(5, 5 + input[4])) {
                Ok(name) => with_port(ADDRESS_DOMAIN, name, input.skip(5 + input[4])),
                Err(fault) => RequestEnd::Failed(RequestError::InvalidDomain(fault)),
            }
        }
    } else if input[3] == ADDRESS_IPV6 {
        if input.len() < 20 {
            RequestEnd::Unfinished
        } else {
            with_port(ADDRESS_IPV6, ipv6_text(input.subrange(4, 20)), input.skip(20))
        }
    } else {
        RequestEnd::Failed(RequestError::UnsupportedAddressType(input[3]))
    }
}

/// The end of a request, from the port on.
pub open spec fn with_port(
    address_type: u8,
    target_addr: Seq<char>,
    input: Seq<u8>,
) -> RequestEnd {
    if input.len() < 2 {
        RequestEnd::Unfinished
    } else {
        RequestEnd::Complete {
            target: TargetView { address_type, target_addr, target_port: port_number(input) },
            rest: input.skip(2),
        }
    }
}

impl RequestState {
    /// The number of bytes to read before the next step.
    pub fn needed(&self) -> (r: usize)
        ensures
            r == self@.needed(),
    {
        match self {
            RequestState::Header => 4,
            RequestState::Ipv4 => 4,
            RequestState::DomainLength => 1,
            RequestState::Domain { len } => *len as usize,
            RequestState::Ipv6 => 16,
            RequestState::Port { .. } => 2,
            RequestState::Done { .. } => 0,
        }
    }

    /// Takes the bytes that the state waits for.
    pub fn advance(self, input: Vec<u8>) -> (r: Result<RequestState, RequestError>)
        requires
            input@.len() == self@.needed(),
        ensures
            match r {
                Ok(next) => self@.advance(input@) == Ok::<_, RequestError>(next@),
                Err(e) => self@.advance(input@) == Err::<RequestView, _>(e),
            },
    {
        match self {
            RequestState::Header => {
                if input[0] != SOCKS_VERSION {
                    Err(RequestError::UnsupportedVersion(input[0]))
                } else if input[1] != COMMAND_CONNECT {
                    Err(RequestError::UnsupportedCommand(input[1]))
                } else if input[3] == ADDRESS_IPV4 {
                    Ok(RequestState::Ipv4)
                } else if input[3] == ADDRESS_DOMAIN {
                    Ok(RequestState::DomainLength)
                } else if input[3] == ADDRESS_IPV6 {
                    Ok(RequestState::Ipv6)
                } else {
                    Err(RequestError::UnsupportedAddressType(input[3]))
                }
            },
            RequestState::Ipv4 => Ok(
                RequestState::Port {
                    address_type: ADDRESS_IPV4,
                    target_addr: ipv4(input.as_slice()),
                },
            ),
            RequestState::DomainLength => Ok(RequestState::Domain { len: input[0] }),
            RequestState::Domain { .. } => match decode_text(input) {
                Ok(name) => Ok(
                    RequestState::Port { address_type: ADDRESS_DOMAIN, target_addr: name },
                ),
                Err(fault) => Err(RequestError::InvalidDomain(fault)),
            },
            RequestState::Ipv6 => Ok(
                RequestState::Port {
                    address_type: ADDRESS_IPV6,
                    target_addr: ipv6(input.as_slice()),
                },
            ),
            RequestState::Port { address_type, target_addr } => Ok(
                RequestState::Done {
                    target: ConnectTarget {
                        address_type,
                        target_addr,
                        target_port: input[0] as u16 * 256 + input[1] as u16,
                    },
                },
            ),
            RequestState::Done { target } => Ok(RequestState::Done { target }),
        }
    }
}

/// The port, fed in one piece.
proof fn lemma_port_run(address_type: u8, target_addr: Seq<char>, input: Seq<u8>)
    ensures
        (RequestView::Port { address_type, target_addr }).run(input) == with_port(
            address_type,
            target_addr,
            input,
        ),
{
    if input.len() >= 2 {
        let target = TargetView {
            address_type,
            target_addr,
            target_port: port_number(input.take(2)),
        };
        assert((RequestView::Port { address_type, target_addr }).run(input) == (
        RequestView::Done { target }).run(input.skip(2)));
        assert(port_number(input.take(2)) == port_number(input));
    }
}

/// Whatever a client sends, the request that is read piece by piece is what the grammar says.
pub proof fn law_request_follows_grammar(input: Seq<u8>)
    ensures
        RequestView::Header.run(input) == connect_request(input),
{
    if input.len() >= 4 {
        let header = input.take(4);
        let rest = input.skip(4);
        match RequestView::Header.advance(header) {
            Err(_) => {},
            Ok(RequestView::Ipv4) => {
                assert(RequestView::Header.run(input) == RequestView::Ipv4.run(rest));
                if rest.len() >= 4 {
                    assert(rest.take(4) =~= input.subrange(4, 8));
                    assert(rest.skip(4) =~= input.skip(8));
                    lemma_port_run(ADDRESS_IPV4, ipv4_text(rest.take(4)), rest.skip(4));
                }
            },
            Ok(RequestView::Ipv6) => {
                assert(RequestView::Header.run(input) == RequestView::Ipv6.run(rest));
                if rest.len() >= 16 {
                    assert(rest.take(16) =~= input.subrange(4, 20));
                    assert(rest.skip(16) =~= input.skip(20));
                    lemma_port_run(ADDRESS_IPV6, ipv6_text(rest.take(16)), rest.skip(16));
                }
            },
            Ok(_) => {
                assert(RequestView::Header.run(input) == RequestView::DomainLength.run(rest));
                if rest.len() >= 1 {
                    let s2 = RequestView::Domain { len: rest.take(1)[0] };
                    let in2 = rest.skip(1);
                    assert(RequestView::DomainLength.run(rest) == s2.run(in2));
                    let n = rest[0] as int;
                    if in2.len() >= n {
                        assert(in2.take(n) =~= input.subrange(5, 5 + n));
                        assert(in2.skip(n) =~= input.skip(5 + n));
                        match utf8_text(in2.take(n)) {
                            Err(_) => {},
                            Ok(name) => {
                                lemma_port_run(ADDRESS_DOMAIN, name, in2.skip(n));
                            },
                        }
                    }
                }
            },
        }
    }
}

/// The request of a client that wants `port` at the host `address` of the given type.
pub open spec fn request_message(
    reserved: u8,
    address_type: u8,
    address: Seq<u8>,
    port: u16,
) -> Seq<u8> {
    seq![SOCKS_VERSION, COMMAND_CONNECT, reserved, address_type] + address + seq![
        (port / 256) as u8,
        (port % 256) as u8,
    ]
}

/// A request for a domain name is read as that name and port: the name is not resolved.
pub proof fn law_domain_request_is_read_back(
    reserved: u8,
    name: Seq<char>,
    port: u16,
    rest: Seq<u8>,
)
    requires
        vstd::utf8::encode_utf8(name).len() <= 255,
    ensures
        ({
            let bytes = vstd::utf8::encode_utf8(name);
            RequestView::Header.run(
                request_message(
                    reserved,
                    ADDRESS_DOMAIN,
                    seq![bytes.len() as u8] + bytes,
                    port,
                ) + rest,
            ) == (RequestEnd::Complete {
                target: TargetView {
                    address_type: ADDRESS_DOMAIN,
                    target_addr: name,
                    target_port: port,
                },
                rest,
            })
        }),
{
    let bytes = vstd::utf8::encode_utf8(name);
    let input = request_message(
        reserved,
        ADDRESS_DOMAIN,
        seq![bytes.len() as u8] + bytes,
        port,
    ) + rest;
    law_request_follows_grammar(input);
    vstd::utf8::encode_utf8_valid_utf8(name);
    vstd::utf8::encode_utf8_decode_utf8(name);
    assert(input[4] == bytes.len());
    assert(input.subrange(5, 5 + input[4]) =~= bytes);
    let tail = input.skip(5 + input[4]);
    assert(tail.skip(2) =~= rest);
    assert(tail[0] == (port / 256) as u8 && tail[1] == (port % 256) as u8);
}

/// A request for an IPv4 address is read as that address, in dotted form, and port.
pub proof fn law_ipv4_request_is_read_back(
    reserved: u8,
    address: Seq<u8>,
    port: u16,
    rest: Seq<u8>,
)
    requires
        address.len() == 4,
    ensures
        RequestView::Header.run(request_message(reserved, ADDRESS_IPV4, address, port) + rest) == (
        RequestEnd::Complete {
            target: TargetView {
                address_type: ADDRESS_IPV4,
                target_addr: ipv4_text(address),
                target_port: port,
            },
            rest,
        }),
{
    let input = request_message(reserved, ADDRESS_IPV4, address, port) + rest;
    law_request_follows_grammar(input);
    assert(input.subrange(4, 8) =~= address);
    let tail = input.skip(8);
    assert(tail.skip(2) =~= rest);
    assert(tail[0] == (port / 256) as u8 && tail[1] == (port % 256) as u8);
}

/// A request for an IPv6 address is read as that address, in canonical form, and port.
pub proof fn law_ipv6_request_is_read_back(
    reserved: u8,
    address: Seq<u8>,
    port: u16,
    rest: Seq<u8>,
)
    requires
        address.len() == 16,
    ensures
        RequestView::Header.run(request_message(reserved, ADDRESS_IPV6, address, port) + rest) == (
        RequestEnd::Complete {
            target: TargetView {
                address_type: ADDRESS_IPV6,
                target_addr: ipv6_text(address),
                target_port: port,
            },
            rest,
        }),
{
    let input = request_message(reserved, ADDRESS_IPV6, address, port) + rest;
    law_request_follows_grammar(input);
    assert(input.subrange(4, 20) =~= address);
    let tail = input.skip(20);
    assert(tail.skip(2) =~= rest);
    assert(tail[0] == (port / 256) as u8 && tail[1] == (port % 256) as u8);
}

/// The texts of the errors tell the version, the command or the address type that the client asked
/// for.
pub proof fn law_request_errors_tell_the_number(n: u8, fault: Utf8Fault)
    ensures
        tells(
            request_error_text(RequestError::UnsupportedVersion(n)),
            "Unsupported SOCKS version in connect request: "@,
            n as int,
        ),
        tells(
            request_error_text(RequestError::UnsupportedCommand(n)),
            "Unsupported SOCKS command: "@,
            n as int,
        ),
        tells(
            request_error_text(RequestError::UnsupportedAddressType(n)),
            "Unsupported address type: "@,
            n as int,
        ),
        request_error_text(RequestError::InvalidDomain(fault)) == utf8_fault_text(fault),
{
    law_labelled_number_is_read_back(
        "Unsupported SOCKS version in connect request: "@,
        n as nat,
    );
    law_labelled_number_is_read_back("Unsupported SOCKS command: "@, n as nat);
    law_labelled_number_is_read_back("Unsupported address type: "@, n as nat);
}

/// A request is refused for its version if that is not five, then for its command if that is not
/// one, and then for its address type if that is neither one nor three nor four. Nothing after
/// these four bytes matters then.
pub proof fn law_other_requests_are_refused(input: Seq<u8>)
    requires
        input.len() >= 4,
    ensures
        ({
            let end = RequestView::Header.run(input);
            if input[0] != 5 {
                end == RequestEnd::Failed(RequestError::UnsupportedVersion(input[0]))
            } else if input[1] != 1 {
                end == RequestEnd::Failed(RequestError::UnsupportedCommand(input[1]))
            } else if input[3] != 1 && input[3] != 3 && input[3] != 4 {
                end == RequestEnd::Failed(RequestError::UnsupportedAddressType(input[3]))
            } else {
                end matches RequestEnd::Failed(e) ==> e is InvalidDomain && input[3] == 3
            }
        }),
{
    law_request_follows_grammar(input);
}

/// A domain name that is not UTF-8 is refused.
pub proof fn law_domain_has_to_be_text(reserved: u8, name: Seq<u8>, rest: Seq<u8>)
    requires
        name.len() <= 255,
        !vstd::utf8::valid_utf8(name),
    ensures
        RequestView::Header.run(
            seq![5u8, 1u8, reserved, 3u8, name.len() as u8] + name + rest,
        ) matches RequestEnd::Failed(RequestError::InvalidDomain(fault)) && utf8_text(name) == Err::<
            Seq<char>,
            _,
        >(fault),
{
    let input = seq![5u8, 1u8, reserved, 3u8, name.len() as u8] + name + rest;
    law_request_follows_grammar(input);
    assert(input.subrange(5, 5 + input[4]) =~= name);
}

/// A request takes what belongs to it and no more: what follows a request that has been read
/// changes nothing about it and is left over, and what follows a refused one changes nothing.
pub proof fn law_request_takes_only_its_part(input: Seq<u8>, more: Seq<u8>)
    ensures
        match RequestView::Header.run(input) {
            RequestEnd::Complete { target, rest } => RequestView::Header.run(input + more) == (
            RequestEnd::Complete { target, rest: rest + more }),
            RequestEnd::Failed(e) => RequestView::Header.run(input + more) == RequestEnd::Failed(e),
            RequestEnd::Unfinished => true,
        },
{
    let all = input + more;
    law_request_follows_grammar(input);
    law_request_follows_grammar(all);
    if input.len() >= 8 {
        assert(all.subrange(4, 8) =~= input.subrange(4, 8));
        assert(all.skip(8) =~= input.skip(8) + more);
    }
    if input.len() >= 20 {
        assert(all.subrange(4, 20) =~= input.subrange(4, 20));
        assert(all.skip(20) =~= input.skip(20) + more);
    }
    if input.len() >= 5 && input.len() >= 5 + input[4] {
        let n = 5 + input[4];
        assert(all.subrange(5, n) =~= input.subrange(5, n));
        assert(all.skip(n) =~= input.skip(n) + more);
    }
    match RequestView::Header.run(input) {
        RequestEnd::Complete { target, rest } => {
            let n = input.len() - rest.len();
            assert(all.skip(n) =~= rest + more);
            if input[3] == ADDRESS_IPV4 {
                assert(all.skip(8).skip(2) =~= rest + more);
            } else if input[3] == ADDRESS_IPV6 {
                assert(all.skip(20).skip(2) =~= rest + more);
            } else {
                assert(all.skip(5 + input[4]).skip(2) =~= rest + more);
            }
        },
        _ => {},
    }
}

/// The port is two bytes, the more significant one first.
pub proof fn law_port_is_two_bytes(high: u8, low: u8, more: Seq<u8>)
    ensures
        port_number(seq![high, low] + more) == high * 256 + low,
{
}

} // verus!
