//! What the master and an agent can rely on of each other.

use vstd::prelude::*;

use crate::address::{host_port_text, ipv4_text, ipv6_text};
use crate::cicada::agents::{ConnectionView, MetadataView};
use crate::cicada::link::introduced;
use crate::cicada::pending::{answered_request_id, connect_request_payload, data_request_id};
use crate::cicada::relay::{
    client_output,
    client_read_payload,
    client_stream,
    law_client_receives_what_was_read,
    law_client_stream_is_numbered,
    request_chunks,
    response_data,
};
use crate::cicada::request::{
    connect_request,
    law_domain_request_is_read_back,
    law_ipv4_request_is_read_back,
    law_ipv6_request_is_read_back,
    law_request_follows_grammar,
    request_message,
    RequestEnd,
    RequestView,
};
use crate::cicada::session::agent_connected;
use crate::garadama::connect::{
    first_plan,
    law_first_step_names_the_target,
    law_resolved_address_is_dialled_on_the_port,
    resolved_plan,
    PlanView,
    ResolvedAddress,
};
use crate::garadama::dispatch::{
    connections_after_message,
    ended_request_id,
    message_action,
    ActionView,
};
use crate::garadama::relay::{
    law_target_stream_is_numbered,
    response_chunks,
    target_read_payload,
    target_stream,
    target_write,
    TargetWriteView,
};
use crate::garadama::startup::{introduction, GeoData};
use crate::payload::PayloadView;
use crate::reading::{is_dotted, law_ipv4_is_read_back, law_ipv6_texts_differ, names};
use crate::target::{TargetView, ADDRESS_DOMAIN, ADDRESS_IPV4, ADDRESS_IPV6};
use crate::transfer::{base64_bytes, joined, law_base64_is_read_back, lemma_joined_first, ReadView};

verus! {

/// The master reads an agent's introduction as the agent meant it.
pub proof fn law_introduction_is_understood(agent_id: Seq<char>, geo: GeoData, sink: u64)
    ensures
        introduced(introduction(agent_id, geo), sink) == Some(
            (
                agent_id,
                ConnectionView {
                    sink,
                    metadata: MetadataView {
                        ip: geo.ip@,
                        remote_host: geo.region_name@,
                        country_code: geo.country_iso@,
                        city: geo.city@,
                        region: geo.region_name@,
                        asn: geo.asn@,
                        asn_org: geo.asn_org@,
                    },
                },
            ),
        ),
{
}

/// An agent that is sent a connection request opens a connection to the target that the master
/// was asked for.
pub proof fn law_connect_request_is_understood<W>(
    request_id: Seq<char>,
    target: TargetView,
    connections: Map<Seq<char>, W>,
)
    ensures
        message_action(connect_request_payload(request_id, target), connections) == (
        ActionView::<W>::Connect { request_id, target }),
{
}

/// The master takes an agent's report on a connection request for an answer to that request, and
/// for a success exactly when it is one.
pub proof fn law_connect_response_is_understood(request_id: Seq<char>, success: bool)
    ensures
        ({
            let report = PayloadView::ConnectResponse { request_id, success };
            &&& answered_request_id(report) == Some(request_id)
            &&& agent_connected(Ok(report)) == success
        }),
{
}

/// The first step that an agent takes for the request of a client, given as bytes, if the master
/// can read it.
pub open spec fn agent_plan(request: Seq<u8>) -> Option<PlanView> {
    match RequestView::Header.run(request) {
        RequestEnd::Complete { target, .. } => Some(first_plan(target)),
        _ => None,
    }
}

/// The master does not resolve names: a name that a client asks for is resolved by the agent.
pub proof fn law_names_are_resolved_by_the_agent(
    reserved: u8,
    name: Seq<char>,
    port: u16,
    rest: Seq<u8>,
)
    requires
        vstd::utf8::encode_utf8(name).len() <= 255,
    ensures
        ({
            let bytes = vstd::utf8::encode_utf8(name);
            let request = request_message(
                reserved,
                ADDRESS_DOMAIN,
                seq![bytes.len() as u8] + bytes,
                port,
            );
            agent_plan(request + rest) == Some(
                PlanView::Resolve { query: host_port_text(name, port) },
            )
        }),
{
    law_domain_request_is_read_back(reserved, name, port, rest);
}

/// An address that a client asks for is dialled by the agent as it is; an IPv6 address is put in
/// brackets.
pub proof fn law_addresses_are_dialled_by_the_agent(
    reserved: u8,
    four: Seq<u8>,
    sixteen: Seq<u8>,
    port: u16,
    rest: Seq<u8>,
)
    requires
        four.len() == 4,
        sixteen.len() == 16,
    ensures
        agent_plan(request_message(reserved, ADDRESS_IPV4, four, port) + rest) == Some(
            PlanView::Dial { address: host_port_text(ipv4_text(four), port) },
        ),
        agent_plan(request_message(reserved, ADDRESS_IPV6, sixteen, port) + rest) == Some(
            PlanView::Dial { address: host_port_text("["@ + ipv6_text(sixteen) + "]"@, port) },
        ),
{
    law_ipv4_request_is_read_back(reserved, four, port, rest);
    law_ipv6_request_is_read_back(reserved, sixteen, port, rest);
}

/// The master never reads a request that an agent has no plan for.
pub proof fn law_every_request_has_a_plan(request: Seq<u8>)
    requires
        connect_request(request) is Complete,
    ensures
        agent_plan(request) matches Some(plan) && plan !is GiveUp,
{
    law_request_follows_grammar(request);
}

/// Every message that an agent sends for a request while it serves it is delivered to that
/// request.
pub proof fn law_target_messages_are_for_the_request(
    request_id: Seq<char>,
    chunk_id: u32,
    read: ReadView,
)
    ensures
        data_request_id(
            target_read_payload(request_id, chunk_id, read),
        ) == Some(request_id),
{
}

/// What a target sends is what the client is written, end to end.
pub proof fn law_target_bytes_reach_the_client(
    request_id: Seq<char>,
    data: Seq<Seq<u8>>,
    last: ReadView,
)
    requires
        forall|i: int| 0 <= i < data.len() ==> (#[trigger] data[i]).len() > 0,
        !last.brings_data(),
        data.len() < u32::MAX,
    ensures
        client_output(
            target_stream(
                request_id,
                1,
                data.map_values(|d: Seq<u8>| ReadView::Bytes(d)) + seq![last],
            ),
        ) == joined(data),
{
    let reads = data.map_values(|d: Seq<u8>| ReadView::Bytes(d)) + seq![last];
    let none = Seq::<ReadView>::empty();
    assert(reads + none =~= reads);
    law_target_stream_is_numbered(request_id, 1, data, last, none);
    let chunks = response_chunks(request_id, 1, data);
    let end = target_read_payload(
        request_id,
        (1 + data.len()) as u32,
        last,
    );
    let later = Seq::<PayloadView>::empty();
    assert(chunks + seq![end] + later =~= chunks + seq![end]);
    assert forall|i: int| 0 <= i < chunks.len() implies (response_data(#[trigger] chunks[i])
        matches Some(text) && base64_bytes(text) == Some(data[i])) by {
        law_base64_is_read_back(data[i]);
    }
    law_client_receives_what_was_read(chunks, data, end, later);
}

/// The bytes that an agent writes to the target of a request for one message from the master.
pub open spec fn written_for<W>(
    request_id: Seq<char>,
    payload: PayloadView,
    connections: Map<Seq<char>, W>,
) -> Seq<u8> {
    match message_action(payload, connections) {
        ActionView::Write { request_id: id, data, .. } => match target_write(
            id,
            data,
            connections,
        ) {
            TargetWriteView::Write { bytes, .. } => if id == request_id {
                bytes
            } else {
                Seq::empty()
            },
            _ => Seq::empty(),
        },
        _ => Seq::empty(),
    }
}

/// All that an agent writes to the target of a request for a series of messages from the master,
/// taken in order.
pub open spec fn target_output<W>(
    request_id: Seq<char>,
    payloads: Seq<PayloadView>,
    connections: Map<Seq<char>, W>,
) -> Seq<u8>
    decreases payloads.len(),
{
    if payloads.len() == 0 {
        Seq::empty()
    } else {
        written_for(request_id, payloads[0], connections) + target_output(
            request_id,
            payloads.skip(1),
            connections_after_message(payloads[0], connections),
        )
    }
}

/// Whether a message from the master is data for a request, or ends it.
pub open spec fn concerns(payload: PayloadView, request_id: Seq<char>) -> bool {
    match payload {
        PayloadView::DataRequestChunk { request_id: id, .. } => id == request_id,
        _ => ended_request_id(payload) == Some(request_id),
    }
}

/// What is written to the target of a request depends on the connections only as far as the
/// request has one.
proof fn lemma_output_depends_on_presence<W>(
    request_id: Seq<char>,
    payloads: Seq<PayloadView>,
    a: Map<Seq<char>, W>,
    b: Map<Seq<char>, W>,
)
    requires
        a.contains_key(request_id) == b.contains_key(request_id),
    ensures
        target_output(request_id, payloads, a) == target_output(request_id, payloads, b),
    decreases payloads.len(),
{
    if payloads.len() > 0 {
        lemma_output_depends_on_presence(
            request_id,
            payloads.skip(1),
            connections_after_message(payloads[0], a),
            connections_after_message(payloads[0], b),
        );
    }
}

/// Requests do not interfere with each other: what an agent writes to the target of a request is
/// what it would write if only the messages for that request had arrived.
pub proof fn law_requests_do_not_interfere<W>(
    request_id: Seq<char>,
    payloads: Seq<PayloadView>,
    connections: Map<Seq<char>, W>,
)
    ensures
        target_output(request_id, payloads, connections) == target_output(
            request_id,
            payloads.filter(|p: PayloadView| concerns(p, request_id)),
            connections,
        ),
    decreases payloads.len(),
{
    let keep = |p: PayloadView| concerns(p, request_id);
    if payloads.len() == 0 {
        assert(payloads.filter(keep) =~= payloads) by {
            reveal(Seq::filter);
        }
    } else {
        let first = payloads[0];
        let rest = payloads.skip(1);
        let after = connections_after_message(first, connections);
        law_requests_do_not_interfere(request_id, rest, after);
        assert(payloads =~= seq![first] + rest);
        Seq::filter_distributes_over_add(seq![first], rest, keep);
        assert(seq![first].drop_last() =~= Seq::<PayloadView>::empty());
        assert(seq![first].filter(keep) =~= if keep(first) {
            seq![first]
        } else {
            Seq::empty()
        }) by {
            reveal_with_fuel(Seq::filter, 2);
        }
        let kept = rest.filter(keep);
        if keep(first) {
            let all = seq![first] + kept;
            assert(payloads.filter(keep) == all);
            assert(all.skip(1) =~= kept);
        } else {
            assert(payloads.filter(keep) =~= kept);
            assert(written_for(request_id, first, connections) =~= Seq::<u8>::empty());
            assert(target_output(request_id, payloads, connections) =~= target_output(
                request_id,
                rest,
                after,
            ));
            lemma_output_depends_on_presence(request_id, kept, connections, after);
        }
    }
}

/// Nothing is written for a request that has no connection.
proof fn lemma_no_connection_no_output<W>(
    request_id: Seq<char>,
    payloads: Seq<PayloadView>,
    connections: Map<Seq<char>, W>,
)
    requires
        !connections.contains_key(request_id),
    ensures
        target_output(request_id, payloads, connections) == Seq::<u8>::empty(),
    decreases payloads.len(),
{
    if payloads.len() > 0 {
        lemma_no_connection_no_output(
            request_id,
            payloads.skip(1),
            connections_after_message(payloads[0], connections),
        );
        assert(target_output(request_id, payloads, connections) =~= Seq::<u8>::empty());
    }
}

/// Once a request has ended, the agent writes nothing more to its target, whatever the master
/// sends.
pub proof fn law_nothing_is_written_after_the_end<W>(
    request_id: Seq<char>,
    end: PayloadView,
    later: Seq<PayloadView>,
    connections: Map<Seq<char>, W>,
)
    requires
        ended_request_id(end) == Some(request_id),
    ensures
        target_output(request_id, seq![end] + later, connections) == Seq::<u8>::empty(),
{
    let all = seq![end] + later;
    assert(all.skip(1) =~= later);
    assert(all[0] == end);
    lemma_no_connection_no_output(
        request_id,
        later,
        connections_after_message(end, connections),
    );
    assert(target_output(request_id, all, connections) =~= Seq::<u8>::empty());
}

proof fn lemma_target_output<W>(
    request_id: Seq<char>,
    first: int,
    data: Seq<Seq<u8>>,
    end: Seq<PayloadView>,
    connections: Map<Seq<char>, W>,
)
    requires
        connections.contains_key(request_id),
        end.len() == 0 || ended_request_id(end[0]) == Some(request_id),
    ensures
        target_output(request_id, request_chunks(request_id, first, data) + end, connections)
            == joined(data),
    decreases data.len(),
{
    let chunks = request_chunks(request_id, first, data);
    let all = chunks + end;
    if data.len() == 0 {
        assert(all =~= end);
        assert(joined(data) =~= Seq::<u8>::empty());
        if end.len() > 0 {
            assert(end =~= seq![end[0]] + end.skip(1));
            law_nothing_is_written_after_the_end(request_id, end[0], end.skip(1), connections);
        }
    } else {
        let rest = data.skip(1);
        lemma_target_output(request_id, first + 1, rest, end, connections);
        assert(all.skip(1) =~= request_chunks(request_id, first + 1, rest) + end);
        assert(all[0] == chunks[0]);
        law_base64_is_read_back(data[0]);
        lemma_joined_first(data);
    }
}

/// What a client sends is what the target is written, end to end, where the agent takes the chunks
/// in order.
pub proof fn law_client_bytes_reach_the_target<W>(
    request_id: Seq<char>,
    data: Seq<Seq<u8>>,
    last: ReadView,
    connections: Map<Seq<char>, W>,
)
    requires
        connections.contains_key(request_id),
        forall|i: int| 0 <= i < data.len() ==> (#[trigger] data[i]).len() > 0,
        !last.brings_data(),
        data.len() < u32::MAX,
    ensures
        target_output(
            request_id,
            client_stream(
                request_id,
                1,
                data.map_values(|d: Seq<u8>| ReadView::Bytes(d)) + seq![last],
            ),
            connections,
        ) == joined(data),
{
    let reads = data.map_values(|d: Seq<u8>| ReadView::Bytes(d)) + seq![last];
    let none = Seq::<ReadView>::empty();
    assert(reads + none =~= reads);
    law_client_stream_is_numbered(request_id, 1, data, last, none);
    let end = match client_read_payload(request_id, (1 + data.len()) as u32, last) {
        Some(p) => seq![p],
        None => Seq::<PayloadView>::empty(),
    };
    lemma_target_output(request_id, 1, data, end, connections);
}

/// When a client goes, the agent shuts down the connection that it opened for the client.
pub proof fn law_client_end_shuts_down_the_connection<W>(
    request_id: Seq<char>,
    chunk_id: u32,
    connections: Map<Seq<char>, W>,
)
    requires
        connections.contains_key(request_id),
    ensures
        client_read_payload(
            request_id,
            chunk_id,
            ReadView::Bytes(Seq::empty()),
        ) matches Some(p) && message_action(p, connections) == (ActionView::ShutDown {
            request_id,
            writer: connections[request_id],
        }),
{
}

/// From the bytes of a client's request to the address that the agent dials: where a client asks
/// for a name and a port, the agent looks up that name, and dials the address that it prefers on
/// the port that the client asked for.
pub proof fn law_name_is_dialled_on_the_requested_port(
    reserved: u8,
    name: Seq<char>,
    port: u16,
    rest: Seq<u8>,
    addresses: Seq<ResolvedAddress>,
    i: int,
)
    requires
        vstd::utf8::encode_utf8(name).len() <= 255,
        0 <= i < addresses.len(),
        ({
            ||| addresses[i].is_ipv4 && forall|j: int|
                0 <= j < i ==> !(#[trigger] addresses[j]).is_ipv4
            ||| i == 0 && forall|j: int|
                0 <= j < addresses.len() ==> !(#[trigger] addresses[j]).is_ipv4
        }),
    ensures
        ({
            let bytes = vstd::utf8::encode_utf8(name);
            let request = seq![5u8, 1u8, reserved, 3u8, bytes.len() as u8] + bytes + seq![
                (port / 256) as u8,
                (port % 256) as u8,
            ] + rest;
            &&& RequestView::Header.run(request) matches RequestEnd::Complete { target, rest: left }
            &&& left == rest
            &&& first_plan(target) matches PlanView::Resolve { query }
            &&& names(query, name, port)
            &&& resolved_plan(Some(addresses), target.target_port) matches PlanView::Dial { address }
            &&& names(address, addresses[i].ip@, port)
        }),
{
    let bytes = vstd::utf8::encode_utf8(name);
    let request = seq![5u8, 1u8, reserved, 3u8, bytes.len() as u8] + bytes + seq![
        (port / 256) as u8,
        (port % 256) as u8,
    ] + rest;
    assert(request =~= request_message(
        reserved,
        ADDRESS_DOMAIN,
        seq![bytes.len() as u8] + bytes,
        port,
    ) + rest);
    law_domain_request_is_read_back(reserved, name, port, rest);
    law_first_step_names_the_target(
        TargetView { address_type: ADDRESS_DOMAIN, target_addr: name, target_port: port },
    );
    law_resolved_address_is_dialled_on_the_port(addresses, i, port);
}

/// From the bytes of a client's request to the address that the agent dials: an IPv4 address is
/// dialled as its four numbers, on the port that the client asked for.
pub proof fn law_ipv4_is_dialled_on_the_requested_port(
    reserved: u8,
    bytes: Seq<u8>,
    port: u16,
    rest: Seq<u8>,
)
    requires
        bytes.len() == 4,
    ensures
        ({
            let request = seq![5u8, 1u8, reserved, 1u8] + bytes + seq![
                (port / 256) as u8,
                (port % 256) as u8,
            ] + rest;
            &&& RequestView::Header.run(request) matches RequestEnd::Complete { target, rest: left }
            &&& left == rest
            &&& first_plan(target) matches PlanView::Dial { address }
            &&& names(address, target.target_addr, port)
            &&& is_dotted(target.target_addr, bytes)
        }),
{
    law_ipv4_request_is_read_back(reserved, bytes, port, rest);
    law_ipv4_is_read_back(bytes);
    law_first_step_names_the_target(
        TargetView {
            address_type: ADDRESS_IPV4,
            target_addr: ipv4_text(bytes),
            target_port: port,
        },
    );
}

/// From the bytes of a client's request to the address that the agent dials: an IPv6 address is
/// dialled in brackets, on the port that the client asked for, and two clients that are dialled at
/// the same address asked for the same sixteen bytes.
pub proof fn law_ipv6_is_dialled_on_the_requested_port(
    reserved: u8,
    bytes: Seq<u8>,
    port: u16,
    rest: Seq<u8>,
    other: Seq<u8>,
)
    requires
        bytes.len() == 16,
        other.len() == 16,
    ensures
        ({
            let request = seq![5u8, 1u8, reserved, 4u8] + bytes + seq![
                (port / 256) as u8,
                (port % 256) as u8,
            ] + rest;
            &&& RequestView::Header.run(request) matches RequestEnd::Complete { target, rest: left }
            &&& left == rest
            &&& first_plan(target) matches PlanView::Dial { address }
            &&& names(address, "["@ + target.target_addr + "]"@, port)
            &&& target.target_addr == ipv6_text(other) ==> other == bytes
        }),
{
    law_ipv6_request_is_read_back(reserved, bytes, port, rest);
    if ipv6_text(bytes) == ipv6_text(other) {
        law_ipv6_texts_differ(bytes, other);
    }
    law_first_step_names_the_target(
        TargetView {
            address_type: ADDRESS_IPV6,
            target_addr: ipv6_text(bytes),
            target_port: port,
        },
    );
}

/// An agent introduces itself as what its location service says, and under its own identifier.
pub proof fn law_introduction_says_where_the_agent_is(agent_id: Seq<char>, geo: GeoData)
    ensures
        introduction(agent_id, geo) matches PayloadView::InitRequest {
            agent_id: id,
            ip,
            remote_host,
            country_code,
            city,
            region,
            asn,
            asn_org,
        } && {
            &&& id == agent_id
            &&& ip == geo.ip@
            &&& remote_host == geo.region_name@
            &&& country_code == geo.country_iso@
            &&& city == geo.city@
            &&& region == geo.region_name@
            &&& asn == geo.asn@
            &&& asn_org == geo.asn_org@
        },
{
}

} // verus!
