//! The agents that are connected to the master, and the choice among them.

use dashmap::DashMap;
use rand::Rng;
use vstd::prelude::*;
use vstd::utf8::*;

use crate::cicada::selector::{
    country_codes,
    has_agent_prefix,
    is_agent_id,
    law_every_pair_counts,
    pair_at,
    parse_selector,
    selector_of,
    some_pair_is,
    texts,
    Selector,
    SelectorView,
};
use crate::payload::{optional_text, Payload, PayloadView};
use crate::text::{labelled, same_text};

verus! {

/// What an agent says about itself.
#[derive(Debug, PartialEq, Eq)]
pub struct AgentMetadata {
    pub ip: String,
    pub remote_host: String,
    pub country_code: String,
    pub city: String,
    pub region: String,
    pub asn: String,
    pub asn_org: String,
}

/// What an [`AgentMetadata`] says.
pub struct MetadataView {
    pub ip: Seq<char>,
    pub remote_host: Seq<char>,
    pub country_code: Seq<char>,
    pub city: Seq<char>,
    pub region: Seq<char>,
    pub asn: Seq<char>,
    pub asn_org: Seq<char>,
}

impl View for AgentMetadata {
    type V = MetadataView;

    open spec fn view(&self) -> MetadataView {
        MetadataView {
            ip: self.ip@,
            remote_host: self.remote_host@,
            country_code: self.country_code@,
            city: self.city@,
            region: self.region@,
            asn: self.asn@,
            asn_org: self.asn_org@,
        }
    }
}

impl Clone for AgentMetadata {
    fn clone(&self) -> (r: Self)
        ensures
            r@ == self@,
    {
        AgentMetadata {
            ip: self.ip.clone(),
            remote_host: self.remote_host.clone(),
            country_code: self.country_code.clone(),
            city: self.city.clone(),
            region: self.region.clone(),
            asn: self.asn.clone(),
            asn_org: self.asn_org.clone(),
        }
    }
}

/// A connected agent: the number under which the way to send to it is kept, and what it says
/// about itself.
#[derive(Debug, PartialEq, Eq)]
pub struct AgentConnection {
    pub sink: u64,
    pub metadata: AgentMetadata,
}

/// What an [`AgentConnection`] stands for.
pub struct ConnectionView {
    pub sink: u64,
    pub metadata: MetadataView,
}

impl View for AgentConnection {
    type V = ConnectionView;

    open spec fn view(&self) -> ConnectionView {
        ConnectionView { sink: self.sink, metadata: self.metadata@ }
    }
}

impl Clone for AgentConnection {
    fn clone(&self) -> (r: Self)
        ensures
            r@ == self@,
    {
        AgentConnection { sink: self.sink, metadata: self.metadata.clone() }
    }
}

#[verifier::external_type_specification]
#[verifier::external_body]
#[verifier::reject_recursive_types(K)]
#[verifier::reject_recursive_types(V)]
#[verifier::reject_recursive_types(S)]
pub struct ExDashMap<K, V, S>(dashmap::DashMap<K, V, S>);

/// The connections that a map holds, by agent identifier.
pub uninterp spec fn connections_of(map: DashMap<String, AgentConnection>) -> Map<
    Seq<char>,
    ConnectionView,
>;

/// `DashMap::new` makes a map that holds nothing.
#[verifier::external_body]
fn dash_new() -> (r: DashMap<String, AgentConnection>)
    ensures
        connections_of(r) == (Map::<Seq<char>, ConnectionView>::empty()),
{
    DashMap::new()
}

/// `DashMap::insert` puts a value under a key, in place of the value that was there, which it
/// returns. The map is borrowed exclusively here, so that no other thread changes it meanwhile.
#[verifier::external_body]
fn dash_insert(
    map: &mut DashMap<String, AgentConnection>,
    key: String,
    value: AgentConnection,
) -> (r: Option<AgentConnection>)
    ensures
        connections_of(*final(map)) == connections_of(*old(map)).insert(key@, value@),
        match r {
            Some(v) => connections_of(*old(map)).contains_key(key@) && connections_of(
                *old(map),
            )[key@] == v@,
            None => !connections_of(*old(map)).contains_key(key@),
        },
{
    map.insert(key, value)
}

/// `DashMap::remove` takes the value under a key out of the map and returns it with its key.
#[verifier::external_body]
fn dash_remove(map: &mut DashMap<String, AgentConnection>, key: &str) -> (r: Option<
    (String, AgentConnection),
>)
    ensures
        connections_of(*final(map)) == connections_of(*old(map)).remove(key@),
        match r {
            Some((k, v)) => k@ == key@ && connections_of(*old(map)).contains_key(key@)
                && connections_of(*old(map))[key@] == v@,
            None => !connections_of(*old(map)).contains_key(key@),
        },
{
    map.remove(key)
}

/// `DashMap::get` finds the value under a key; the value is handed out as a copy.
#[verifier::external_body]
fn dash_get(map: &DashMap<String, AgentConnection>, key: &str) -> (r: Option<AgentConnection>)
    ensures
        match r {
            Some(v) => connections_of(*map).contains_key(key@) && connections_of(*map)[key@]
                == v@,
            None => !connections_of(*map).contains_key(key@),
        },
{
    map.get(key).map(|entry| entry.value().clone())
}

/// `DashMap::iter` visits each entry once, in an order that nothing promises; the entries are
/// handed out as copies.
#[verifier::external_body]
fn dash_entries(map: &DashMap<String, AgentConnection>) -> (r: Vec<(String, AgentConnection)>)
    ensures
        forall|i: int|
            0 <= i < r@.len() ==> connections_of(*map).contains_key(#[trigger] r@[i].0@)
                && connections_of(*map)[r@[i].0@] == r@[i].1@,
        forall|key: Seq<char>| #[trigger]
            connections_of(*map).contains_key(key) ==> exists|i: int|
                0 <= i < r@.len() && #[trigger] r@[i].0@ == key,
        forall|i: int, j: int|
            0 <= i < j < r@.len() ==> #[trigger] r@[i].0@ != #[trigger] r@[j].0@,
{
    map.iter().map(|entry| (entry.key().clone(), entry.value().clone())).collect()
}

/// `Rng::random_range` over the thread's generator draws a number from a range that is not
/// empty. Which one is left to chance.
#[verifier::external_body]
fn random_index(len: usize) -> (r: usize)
    requires
        len > 0,
    ensures
        r < len,
{
    rand::rng().random_range(0..len)
}

/// The agents that are connected, by identifier.
pub struct AgentMap {
    map: DashMap<String, AgentConnection>,
}

impl View for AgentMap {
    type V = Map<Seq<char>, ConnectionView>;

    closed spec fn view(&self) -> Map<Seq<char>, ConnectionView> {
        connections_of(self.map)
    }
}

/// What comes of an agent's introduction.
#[derive(Debug, PartialEq, Eq)]
pub enum Registration {
    /// The agent is registered, in place of the connection that had its identifier before.
    Accepted { response: Payload, replaced: Option<AgentConnection> },
    /// The identifier does not have the form of one, as `error` says.
    Rejected { response: Payload, error: String },
}

/// The master's answer to an introduction under `agent_id`.
pub open spec fn init_response(agent_id: Seq<char>) -> PayloadView {
    if is_agent_id(agent_id) {
        PayloadView::InitResponse { success: true, message: None }
    } else {
        PayloadView::InitResponse {
            success: false,
            message: Some("Agent ID must start with 'agent_'"@),
        }
    }
}

/// In words, what is wrong with an identifier that does not have the form of one.
pub open spec fn invalid_agent_id_text(agent_id: Seq<char>) -> Seq<char> {
    "Invalid agent ID format: "@ + agent_id
}

/// Says what is wrong with an identifier that does not have the form of one.
pub fn invalid_agent_id_message(agent_id: &str) -> (r: String)
    ensures
        r@ == invalid_agent_id_text(agent_id@),
        r@ == "Invalid agent ID format: "@ + agent_id@,
{
    labelled("Invalid agent ID format: ", agent_id)
}

/// The connected agents after an introduction under `agent_id`.
pub open spec fn agents_after_init(
    agents: Map<Seq<char>, ConnectionView>,
    agent_id: Seq<char>,
    connection: ConnectionView,
) -> Map<Seq<char>, ConnectionView> {
    if is_agent_id(agent_id) {
        agents.insert(agent_id, connection)
    } else {
        agents
    }
}

/// Whether every identifier has the form of an agent identifier.
pub open spec fn identifiers_are_valid(agents: Map<Seq<char>, ConnectionView>) -> bool {
    forall|id: Seq<char>| #[trigger] agents.contains_key(id) ==> is_agent_id(id)
}

impl AgentMap {
    /// No agent.
    pub fn new() -> (r: Self)
        ensures
            r@ == Map::<Seq<char>, ConnectionView>::empty(),
            identifiers_are_valid(r@),
    {
        AgentMap { map: dash_new() }
    }

    /// Registers an agent that introduces itself, if its identifier has the right form, and
    /// answers it.
    pub fn handle_init_request(
        &mut self,
        agent_id: String,
        connection: AgentConnection,
    ) -> (r: Registration)
        ensures
            final(self)@ == agents_after_init(old(self)@, agent_id@, connection@),
            final(self)@ == if "agent_"@.is_prefix_of(agent_id@) {
                old(self)@.insert(agent_id@, connection@)
            } else {
                old(self)@
            },
            match r {
                Registration::Accepted { response, .. } => {
                    &&& "agent_"@.is_prefix_of(agent_id@)
                    &&& response matches Payload::InitResponse { success: true, message: None }
                },
                Registration::Rejected { response, error } => {
                    &&& !"agent_"@.is_prefix_of(agent_id@)
                    &&& response matches Payload::InitResponse { success: false, message: Some(m) }
                    &&& m@ == "Agent ID must start with 'agent_'"@
                    &&& error@ == "Invalid agent ID format: "@ + agent_id@
                },
            },
            identifiers_are_valid(old(self)@) ==> identifiers_are_valid(final(self)@),
            match r {
                Registration::Accepted { response, replaced } => {
                    &&& is_agent_id(agent_id@)
                    &&& response@ == init_response(agent_id@)
                    &&& match replaced {
                        Some(c) => old(self)@.contains_key(agent_id@) && old(self)@[agent_id@]
                            == c@,
                        None => !old(self)@.contains_key(agent_id@),
                    }
                },
                Registration::Rejected { response, error } => {
                    &&& !is_agent_id(agent_id@)
                    &&& response@ == init_response(agent_id@)
                    &&& error@ == invalid_agent_id_text(agent_id@)
                },
            },
    {
        if has_agent_prefix(agent_id.as_str()) {
            let replaced = dash_insert(&mut self.map, agent_id, connection);
            Registration::Accepted {
                response: Payload::InitResponse { success: true, message: None },
                replaced,
            }
        } else {
            let message = "Agent ID must start with 'agent_'".to_owned();
            Registration::Rejected {
                response: Payload::InitResponse { success: false, message: Some(message) },
                error: invalid_agent_id_message(agent_id.as_str()),
            }
        }
    }

    /// Forgets the agent with the given identifier, and returns its connection.
    pub fn remove(&mut self, agent_id: &str) -> (r: Option<AgentConnection>)
        ensures
            final(self)@ == old(self)@.remove(agent_id@),
            identifiers_are_valid(old(self)@) ==> identifiers_are_valid(final(self)@),
            match r {
                Some(c) => old(self)@.contains_key(agent_id@) && old(self)@[agent_id@] == c@,
                None => !old(self)@.contains_key(agent_id@),
            },
    {
        match dash_remove(&mut self.map, agent_id) {
            Some((_, connection)) => Some(connection),
            None => None,
        }
    }
}

/// Why a client gets no agent.
#[derive(Debug, Clone, Copy, PartialEq, Eq, Structural)]
pub enum SelectError {
    /// The agent that the client names is not connected.
    AgentNotFound,
    /// No agent is connected.
    NoAgents,
    /// The username has no country code in it.
    InvalidCountryFormat,
    /// No connected agent is in any of the countries.
    NoAgentsInCountries,
    /// The username has none of the known forms.
    InvalidUsername,
}

/// An agent that a client may be given.
#[derive(Debug, PartialEq, Eq)]
pub struct Candidate {
    pub agent_id: String,
    pub connection: AgentConnection,
}

/// What a [`Candidate`] stands for.
pub struct CandidateView {
    pub agent_id: Seq<char>,
    pub connection: ConnectionView,
}

impl View for Candidate {
    type V = CandidateView;

    open spec fn view(&self) -> CandidateView {
        CandidateView { agent_id: self.agent_id@, connection: self.connection@ }
    }
}

/// Whether a selector admits an agent.
pub open spec fn admits(selector: SelectorView, candidate: CandidateView) -> bool {
    match selector {
        SelectorView::Agent(id) => candidate.agent_id == id,
        SelectorView::Any => true,
        SelectorView::Countries(codes) => codes.contains(
            candidate.connection.metadata.country_code,
        ),
        SelectorView::Invalid => false,
    }
}

/// Whether an agent is connected and admitted by a selector.
pub open spec fn is_candidate(
    agents: Map<Seq<char>, ConnectionView>,
    selector: SelectorView,
    candidate: CandidateView,
) -> bool {
    &&& agents.contains_key(candidate.agent_id)
    &&& agents[candidate.agent_id] == candidate.connection
    &&& admits(selector, candidate)
}

/// Whether some connected agent is admitted by a selector.
pub open spec fn has_candidate(
    agents: Map<Seq<char>, ConnectionView>,
    selector: SelectorView,
) -> bool {
    exists|candidate: CandidateView| #[trigger] is_candidate(agents, selector, candidate)
}

/// Why a selector finds no agent, if it finds none.
pub open spec fn selection_error(
    agents: Map<Seq<char>, ConnectionView>,
    selector: SelectorView,
) -> Option<SelectError> {
    if selector matches SelectorView::Countries(codes) && codes.len() == 0 {
        Some(SelectError::InvalidCountryFormat)
    } else if has_candidate(agents, selector) {
        None
    } else {
        match selector {
            SelectorView::Agent(_) => Some(SelectError::AgentNotFound),
            SelectorView::Any => Some(SelectError::NoAgents),
            SelectorView::Countries(_) => Some(SelectError::NoAgentsInCountries),
            SelectorView::Invalid => Some(SelectError::InvalidUsername),
        }
    }
}

/// Whether `text` is one of `list`.
fn contains_text(list: &Vec<String>, text: &str) -> (r: bool)
    ensures
        r == texts(list@).contains(text@),
{
    let mut i: usize = 0;
    while i < list.len()
        invariant
            i <= list@.len(),
            forall|j: int| 0 <= j < i ==> (#[trigger] list@[j])@ != text@,
        decreases list@.len() - i,
    {
        if same_text(list[i].as_str(), text) {
            assert(texts(list@)[i as int] == text@);
            return true;
        }
        i = i + 1;
    }
    assert forall|j: int| 0 <= j < list@.len() implies texts(list@)[j] != text@ by {
        assert(texts(list@)[j] == list@[j]@);
    }
    false
}

impl AgentMap {
    /// The connected agents that a selector admits, each once. The order is not determined.
    fn admitted(&self, selector: &Selector) -> (r: Vec<Candidate>)
        ensures
            forall|i: int| 0 <= i < r@.len() ==> is_candidate(self@, selector@, #[trigger] r@[i]@),
            forall|c: CandidateView| #[trigger]
                is_candidate(self@, selector@, c) ==> exists|i: int|
                    0 <= i < r@.len() && #[trigger] r@[i]@ == c,
            forall|i: int, j: int|
                0 <= i < j < r@.len() ==> #[trigger] r@[i]@.agent_id != #[trigger] r@[j]@.agent_id,
    {
        let entries = dash_entries(&self.map);
        let mut found: Vec<Candidate> = Vec::new();
        let mut i: usize = 0;
        while i < entries.len()
            invariant
                i <= entries@.len(),
                forall|k: int|
                    0 <= k < entries@.len() ==> self@.contains_key(#[trigger] entries@[k].0@)
                        && self@[entries@[k].0@] == entries@[k].1@,
                forall|k: int, j: int|
                    0 <= k < j < entries@.len() ==> #[trigger] entries@[k].0@ != #[trigger] entries@[j].0@,
                forall|k: int|
                    0 <= k < found@.len() ==> is_candidate(
                        self@,
                        selector@,
                        #[trigger] found@[k]@,
                    ),
                forall|k: int|
                    0 <= k < found@.len() ==> exists|j: int|
                        0 <= j < i && #[trigger] entries@[j].0@ == (#[trigger] found@[k])@.agent_id,
                forall|j: int|
                    0 <= j < i && admits(
                        selector@,
                        CandidateView { agent_id: (#[trigger] entries@[j]).0@, connection: entries@[j].1@ },
                    ) ==> exists|k: int|
                        0 <= k < found@.len() && (#[trigger] found@[k])@ == (CandidateView {
                            agent_id: entries@[j].0@,
                            connection: entries@[j].1@,
                        }),
                forall|k: int, j: int|
                    0 <= k < j < found@.len() ==> #[trigger] found@[k]@.agent_id != #[trigger] found@[j]@.agent_id,
            decreases entries@.len() - i,
        {
            let (id, connection) = (&entries[i].0, &entries[i].1);
            let admitted = match selector {
                Selector::Agent(wanted) => same_text(wanted.as_str(), id.as_str()),
                Selector::Any => true,
                Selector::Countries(codes) => contains_text(
                    codes,
                    connection.metadata.country_code.as_str(),
                ),
                Selector::Invalid => false,
            };
            let ghost before = found@;
            if admitted {
                found.push(Candidate { agent_id: id.clone(), connection: connection.clone() });
                assert forall|k: int| 0 <= k < before.len() implies (#[trigger] found@[k])@.agent_id
                    != entries@[i as int].0@ by {
                    assert(found@[k] == before[k]);
                }
            }
            assert forall|k: int| 0 <= k < found@.len() implies exists|j: int|
                0 <= j < i + 1 && #[trigger] entries@[j].0@ == (#[trigger] found@[k])@.agent_id by {
                if k < before.len() {
                    assert(found@[k] == before[k]);
                    let j = choose|j: int|
                        0 <= j < i && #[trigger] entries@[j].0@ == before[k]@.agent_id;
                    assert(entries@[j].0@ == found@[k]@.agent_id);
                } else {
                    assert(entries@[i as int].0@ == found@[k]@.agent_id);
                }
            }
            assert forall|j: int|
                0 <= j < i + 1 && admits(
                    selector@,
                    CandidateView { agent_id: (#[trigger] entries@[j]).0@, connection: entries@[j].1@ },
                ) implies exists|k: int|
                0 <= k < found@.len() && (#[trigger] found@[k])@ == (CandidateView {
                    agent_id: entries@[j].0@,
                    connection: entries@[j].1@,
                }) by {
                if j < i {
                    let k = choose|k: int|
                        0 <= k < before.len() && (#[trigger] before[k])@ == (CandidateView {
                            agent_id: entries@[j].0@,
                            connection: entries@[j].1@,
                        });
                    assert(found@[k] == before[k]);
                } else {
                    assert(found@[before.len() as int]@ == (CandidateView {
                        agent_id: entries@[j].0@,
                        connection: entries@[j].1@,
                    }));
                }
            }
            i = i + 1;
        }
        assert forall|c: CandidateView| #[trigger] is_candidate(self@, selector@, c) implies exists|
            k: int,
        |
            0 <= k < found@.len() && #[trigger] found@[k]@ == c by {
            assert(self@.contains_key(c.agent_id));
            let j = choose|j: int| 0 <= j < entries@.len() && #[trigger] entries@[j].0@ == c.agent_id;
            assert(c == (CandidateView { agent_id: entries@[j].0@, connection: entries@[j].1@ }));
        }
        found
    }

    /// The agents that a client with this username may be given, or why there is none.
    pub fn candidates(&self, username: &Option<String>) -> (r: Result<Vec<Candidate>, SelectError>)
        ensures
            match r {
                Ok(list) => {
                    let selector = selector_of(optional_text(*username));
                    &&& selection_error(self@, selector) is None
                    &&& list@.len() > 0
                    &&& forall|i: int|
                        0 <= i < list@.len() ==> is_candidate(
                            self@,
                            selector,
                            #[trigger] list@[i]@,
                        )
                    &&& forall|c: CandidateView| #[trigger]
                        is_candidate(self@, selector, c) ==> exists|i: int|
                            0 <= i < list@.len() && #[trigger] list@[i]@ == c
                    &&& forall|i: int, j: int|
                        0 <= i < j < list@.len() ==> #[trigger] list@[i]@.agent_id
                            != #[trigger] list@[j]@.agent_id
                },
                Err(e) => selection_error(self@, selector_of(optional_text(*username))) == Some(e),
            },
    {
        let selector = parse_selector(username);
        if let Selector::Agent(id) = &selector {
            return match dash_get(&self.map, id.as_str()) {
                Some(connection) => {
                    let candidate = Candidate { agent_id: id.clone(), connection };
                    let list = vec![candidate];
                    assert(list@ =~= seq![candidate]);
                    assert(is_candidate(self@, selector@, list@[0]@));
                    assert forall|c: CandidateView| #[trigger]
                        is_candidate(self@, selector@, c) implies exists|i: int|
                        0 <= i < list@.len() && #[trigger] list@[i]@ == c by {
                        assert(list@[0]@ == c);
                    }
                    Ok(list)
                },
                None => Err(SelectError::AgentNotFound),
            };
        }
        if let Selector::Countries(codes) = &selector {
            if codes.len() == 0 {
                return Err(SelectError::InvalidCountryFormat);
            }
        }
        let list = self.admitted(&selector);
        if list.len() > 0 {
            assert(is_candidate(self@, selector@, list@[0]@));
            return Ok(list);
        }
        match selector {
            Selector::Agent(_) => Err(SelectError::AgentNotFound),
            Selector::Any => Err(SelectError::NoAgents),
            Selector::Countries(_) => Err(SelectError::NoAgentsInCountries),
            Selector::Invalid => Err(SelectError::InvalidUsername),
        }
    }

    /// Chooses at random among the agents that a client with this username may be given.
    pub fn select_agent(&self, username: &Option<String>) -> (r: Result<Candidate, SelectError>)
        ensures
            match r {
                Ok(c) => {
                    &&& selection_error(self@, selector_of(optional_text(*username))) is None
                    &&& is_candidate(self@, selector_of(optional_text(*username)), c@)
                },
                Err(e) => selection_error(self@, selector_of(optional_text(*username))) == Some(e),
            },
    {
        match self.candidates(username) {
            Ok(list) => {
                let index = random_index(list.len());
                Ok(choose_candidate(list, index))
            },
            Err(e) => Err(e),
        }
    }
}

/// The candidate at `index`.
pub fn choose_candidate(candidates: Vec<Candidate>, index: usize) -> (r: Candidate)
    requires
        index < candidates@.len(),
    ensures
        r == candidates@[index as int],
{
    let mut list = candidates;
    list.swap_remove(index)
}

/// An agent that has been registered can be asked for by its identifier: the client then gets
/// that agent's connection and no other.
pub proof fn law_registered_agent_is_given(
    agents: Map<Seq<char>, ConnectionView>,
    agent_id: Seq<char>,
    connection: ConnectionView,
    candidate: CandidateView,
)
    requires
        is_agent_id(agent_id),
    ensures
        ({
            let after = agents_after_init(agents, agent_id, connection);
            let selector = selector_of(Some(agent_id));
            &&& selection_error(after, selector) is None
            &&& is_candidate(after, selector, candidate) <==> candidate == (CandidateView {
                agent_id,
                connection,
            })
        }),
{
    let after = agents_after_init(agents, agent_id, connection);
    assert(is_candidate(
        after,
        selector_of(Some(agent_id)),
        CandidateView { agent_id, connection },
    ));
}

/// While only valid identifiers are registered, every connected agent can be asked for by its
/// identifier.
pub proof fn law_every_agent_can_be_named(
    agents: Map<Seq<char>, ConnectionView>,
    agent_id: Seq<char>,
)
    requires
        identifiers_are_valid(agents),
        agents.contains_key(agent_id),
    ensures
        is_candidate(
            agents,
            selector_of(Some(agent_id)),
            CandidateView { agent_id, connection: agents[agent_id] },
        ),
        selection_error(agents, selector_of(Some(agent_id))) is None,
{
    assert(is_candidate(
        agents,
        selector_of(Some(agent_id)),
        CandidateView { agent_id, connection: agents[agent_id] },
    ));
}

/// An agent that has been removed is given to nobody.
pub proof fn law_removed_agent_is_not_given(
    agents: Map<Seq<char>, ConnectionView>,
    agent_id: Seq<char>,
    username: Option<Seq<char>>,
    candidate: CandidateView,
)
    requires
        is_candidate(agents.remove(agent_id), selector_of(username), candidate),
    ensures
        candidate.agent_id != agent_id,
        is_candidate(agents, selector_of(username), candidate),
{
}

/// Without a username, or with the username `all`, a client may be given every connected agent,
/// and is refused only where there is none.
pub proof fn law_all_admits_every_agent(
    agents: Map<Seq<char>, ConnectionView>,
    username: Option<Seq<char>>,
    agent_id: Seq<char>,
)
    requires
        username is None || username == Some("all"@),
    ensures
        agents.contains_key(agent_id) ==> is_candidate(
            agents,
            selector_of(username),
            CandidateView { agent_id, connection: agents[agent_id] },
        ),
        selection_error(agents, selector_of(username)) is Some <==> (forall|id: Seq<char>|
            !agents.contains_key(id)),
{
    reveal_strlit("agent_");
    reveal_strlit("all");
    let selector = selector_of(username);
    assert(selector == SelectorView::Any);
    assert forall|id: Seq<char>| agents.contains_key(id) implies has_candidate(
        agents,
        selector,
    ) by {
        assert(is_candidate(
            agents,
            selector,
            CandidateView { agent_id: id, connection: agents[id] },
        ));
    }
    if selection_error(agents, selector) is None {
        let c = choose|c: CandidateView| #[trigger] is_candidate(agents, selector, c);
        assert(agents.contains_key(c.agent_id));
    }
}

/// A client that names countries is only ever given an agent in one of them.
pub proof fn law_country_selection_stays_in_countries(
    agents: Map<Seq<char>, ConnectionView>,
    name: Seq<char>,
    candidate: CandidateView,
)
    requires
        is_candidate(agents, selector_of(Some("country_"@ + name)), candidate),
    ensures
        country_codes("country_"@ + name).contains(candidate.connection.metadata.country_code),
{
    reveal_strlit("agent_");
    reveal_strlit("all");
    reveal_strlit("country_");
    let username = "country_"@ + name;
    assert(username[0] == 'c');
    assert(username.subrange(0, 6)[0] == 'c');
    assert("agent_"@[0] == 'a');
    assert("all"@[0] == 'a');
    assert("country_"@.is_prefix_of(username)) by {
        assert(username.subrange(0, 8) =~= "country_"@);
    }
}

/// Whoever may be given is connected, under the identifier and with the connection that the client
/// is then given.
pub proof fn law_candidates_are_connected(
    agents: Map<Seq<char>, ConnectionView>,
    username: Option<Seq<char>>,
    candidate: CandidateView,
)
    requires
        is_candidate(agents, selector_of(username), candidate),
    ensures
        agents.contains_key(candidate.agent_id),
        agents[candidate.agent_id] == candidate.connection,
        selection_error(agents, selector_of(username)) is None,
{
    let selector = selector_of(username);
    assert(has_candidate(agents, selector));
    if let SelectorView::Countries(codes) = selector {
        assert(codes.contains(candidate.connection.metadata.country_code));
    }
}

/// An agent in any one of the countries that a client names, at whatever place in the username,
/// may be given to the client, and the client is not refused.
pub proof fn law_every_named_country_counts(
    agents: Map<Seq<char>, ConnectionView>,
    name: Seq<char>,
    agent_id: Seq<char>,
    k: int,
)
    requires
        !"country_"@.is_prefix_of(name),
        agents.contains_key(agent_id),
        0 <= k,
        2 * k + 2 <= encode_utf8(name).len(),
        encode_utf8(name).subrange(2 * k, 2 * k + 2) == encode_utf8(
            agents[agent_id].metadata.country_code,
        ),
    ensures
        is_candidate(
            agents,
            selector_of(Some("country_"@ + name)),
            CandidateView { agent_id, connection: agents[agent_id] },
        ),
        selection_error(agents, selector_of(Some("country_"@ + name))) is None,
{
    let username = "country_"@ + name;
    let code = agents[agent_id].metadata.country_code;
    let candidate = CandidateView { agent_id, connection: agents[agent_id] };
    lemma_country_username(name);
    assert(pair_at(encode_utf8(name), k) == encode_utf8(code));
    law_every_pair_counts(name, code);
    assert(is_candidate(agents, selector_of(Some(username)), candidate));
    law_candidates_are_connected(agents, Some(username), candidate);
}

/// A username of ASCII characters names the countries that its characters after the prefix are,
/// two by two: an agent in any one of them may be given to the client, and the client is not
/// refused.
pub proof fn law_every_named_ascii_country_counts(
    agents: Map<Seq<char>, ConnectionView>,
    codes: Seq<char>,
    agent_id: Seq<char>,
    k: int,
)
    requires
        is_ascii_chars(codes),
        !"country_"@.is_prefix_of(codes),
        agents.contains_key(agent_id),
        0 <= k,
        2 * k + 2 <= codes.len(),
        agents[agent_id].metadata.country_code == codes.subrange(2 * k, 2 * k + 2),
    ensures
        is_candidate(
            agents,
            selector_of(Some("country_"@ + codes)),
            CandidateView { agent_id, connection: agents[agent_id] },
        ),
        selection_error(agents, selector_of(Some("country_"@ + codes))) is None,
{
    let code = codes.subrange(2 * k, 2 * k + 2);
    is_ascii_chars_encode_utf8(codes);
    assert forall|i: int| 0 <= i < code.len() implies '\0' <= #[trigger] code[i] <= '\u{7f}' by {
        assert(code[i] == codes[2 * k + i]);
    }
    assert(is_ascii_chars(code));
    is_ascii_chars_encode_utf8(code);
    assert(encode_utf8(codes).subrange(2 * k, 2 * k + 2) =~= encode_utf8(code)) by {
        assert forall|i: int| 0 <= i < 2 implies encode_utf8(codes).subrange(2 * k, 2 * k + 2)[i]
            == encode_utf8(code)[i] by {
            assert(code[i] == codes[2 * k + i]);
        }
    }
    law_every_named_country_counts(agents, codes, agent_id, k);
}

/// A client that names countries is refused because of the form of its username where there is no
/// code in it, and because of the agents where none is in any of the countries.
pub proof fn law_country_refusals(agents: Map<Seq<char>, ConnectionView>, name: Seq<char>)
    requires
        !"country_"@.is_prefix_of(name),
    ensures
        ({
            let error = selection_error(agents, selector_of(Some("country_"@ + name)));
            let bytes = encode_utf8(name);
            &&& error == Some(SelectError::InvalidCountryFormat) <==> (forall|code: Seq<char>|
                !#[trigger] some_pair_is(bytes, code))
            &&& error == Some(SelectError::NoAgentsInCountries) <==> (exists|code: Seq<char>|
                #[trigger] some_pair_is(bytes, code)) && (forall|id: Seq<char>|
                #[trigger] agents.contains_key(id) ==> !some_pair_is(
                    bytes,
                    agents[id].metadata.country_code,
                ))
            &&& error is None || error == Some(SelectError::InvalidCountryFormat) || error == Some(
                SelectError::NoAgentsInCountries,
            )
        }),
{
    let username = "country_"@ + name;
    let selector = selector_of(Some(username));
    let codes = country_codes(username);
    let bytes = encode_utf8(name);
    lemma_country_username(name);
    assert forall|code: Seq<char>| #[trigger] some_pair_is(bytes, code) <==> codes.contains(
        code,
    ) by {
        law_every_pair_counts(name, code);
    }
    if codes.len() > 0 {
        assert(codes.contains(codes[0]));
        assert(some_pair_is(bytes, codes[0]));
    }
    if has_candidate(agents, selector) {
        let c = choose|c: CandidateView| #[trigger] is_candidate(agents, selector, c);
        assert(agents.contains_key(c.agent_id));
        assert(some_pair_is(bytes, agents[c.agent_id].metadata.country_code));
    }
    assert forall|id: Seq<char>| #[trigger]
        agents.contains_key(id) && some_pair_is(
            bytes,
            agents[id].metadata.country_code,
        ) implies has_candidate(agents, selector) by {
        assert(is_candidate(
            agents,
            selector,
            CandidateView { agent_id: id, connection: agents[id] },
        ));
    }
}

/// A client that names an agent gets that agent or none: it is refused exactly where the agent is
/// not connected.
pub proof fn law_unknown_agent_is_refused(
    agents: Map<Seq<char>, ConnectionView>,
    agent_id: Seq<char>,
    candidate: CandidateView,
)
    requires
        "agent_"@.is_prefix_of(agent_id),
    ensures
        ({
            let selector = selector_of(Some(agent_id));
            &&& selection_error(agents, selector) == if agents.contains_key(agent_id) {
                None
            } else {
                Some(SelectError::AgentNotFound)
            }
            &&& is_candidate(agents, selector, candidate) ==> candidate.agent_id == agent_id
        }),
{
    let selector = selector_of(Some(agent_id));
    if agents.contains_key(agent_id) {
        assert(is_candidate(
            agents,
            selector,
            CandidateView { agent_id, connection: agents[agent_id] },
        ));
    }
}

/// A client without a username, or with the username `all`, is refused for the lack of agents only.
pub proof fn law_only_an_empty_pool_refuses_all(
    agents: Map<Seq<char>, ConnectionView>,
    username: Option<Seq<char>>,
)
    requires
        username is None || username == Some("all"@),
    ensures
        selection_error(agents, selector_of(username)) == if exists|id: Seq<char>|
            agents.contains_key(id) {
            None
        } else {
            Some(SelectError::NoAgents)
        },
{
    law_all_admits_every_agent(agents, username, Seq::empty());
    reveal_strlit("agent_");
    reveal_strlit("all");
}

/// A client with a username of no known form is refused, whoever is connected.
pub proof fn law_other_usernames_are_refused(
    agents: Map<Seq<char>, ConnectionView>,
    name: Seq<char>,
    candidate: CandidateView,
)
    requires
        name != "all"@,
        !"agent_"@.is_prefix_of(name),
        !"country_"@.is_prefix_of(name),
    ensures
        selection_error(agents, selector_of(Some(name))) == Some(SelectError::InvalidUsername),
        !is_candidate(agents, selector_of(Some(name)), candidate),
{
}

/// An introduction registers its agent, and leaves every other as it was. Under an identifier that
/// does not start with `agent_` it registers none, and is answered with a failure.
pub proof fn law_introduction_changes_one_agent(
    agents: Map<Seq<char>, ConnectionView>,
    agent_id: Seq<char>,
    connection: ConnectionView,
    other: Seq<char>,
)
    ensures
        ({
            let after = agents_after_init(agents, agent_id, connection);
            if "agent_"@.is_prefix_of(agent_id) {
                &&& after.contains_key(agent_id)
                &&& after[agent_id] == connection
                &&& other != agent_id ==> (after.contains_key(other) <==> agents.contains_key(
                    other,
                ))
                &&& other != agent_id && agents.contains_key(other) ==> after[other]
                    == agents[other]
            } else {
                after == agents
            }
        }),
        init_response(agent_id) matches PayloadView::InitResponse { success, message } && {
            &&& success <==> "agent_"@.is_prefix_of(agent_id)
            &&& message is None <==> success
        },
{
}

/// The connection of an agent is seen whole.
pub proof fn law_connection_is_seen_whole(c: AgentConnection)
    ensures
        c@.sink == c.sink,
        c@.metadata.ip == c.metadata.ip@,
        c@.metadata.remote_host == c.metadata.remote_host@,
        c@.metadata.country_code == c.metadata.country_code@,
        c@.metadata.city == c.metadata.city@,
        c@.metadata.region == c.metadata.region@,
        c@.metadata.asn == c.metadata.asn@,
        c@.metadata.asn_org == c.metadata.asn_org@,
{
}

/// A candidate is seen whole.
pub proof fn law_candidate_is_seen_whole(c: Candidate)
    ensures
        c@.agent_id == c.agent_id@,
        c@.connection == c.connection@,
{
}

proof fn lemma_country_username(name: Seq<char>)
    ensures
        selector_of(Some("country_"@ + name)) == SelectorView::Countries(
            country_codes("country_"@ + name),
        ),
{
    reveal_strlit("agent_");
    reveal_strlit("all");
    reveal_strlit("country_");
    let username = "country_"@ + name;
    assert(username[0] == 'c');
    assert(username.subrange(0, 6)[0] == 'c');
    assert("agent_"@[0] == 'a');
    assert("all"@[0] == 'a');
    assert(username.subrange(0, 8) =~= "country_"@);
}

} // verus!
