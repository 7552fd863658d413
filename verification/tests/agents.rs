use chilsonite::cicada::agents::{
    choose_candidate, invalid_agent_id_message, AgentConnection, AgentMap, AgentMetadata, Registration, SelectError,
};
use chilsonite::cicada::selector::{parse_country_codes, parse_selector, Selector};
use chilsonite::payload::Payload;

fn connection(sink: u64, country: &str) -> AgentConnection {
    AgentConnection {
        sink,
        metadata: AgentMetadata {
            ip: "203.0.113.1".to_string(),
            remote_host: "host".to_string(),
            country_code: country.to_string(),
            city: "city".to_string(),
            region: "region".to_string(),
            asn: "AS1".to_string(),
            asn_org: "org".to_string(),
        },
    }
}

fn pool(agents: &[(&str, u64, &str)]) -> AgentMap {
    let mut map = AgentMap::new();
    for (id, sink, country) in agents {
        map.handle_init_request(id.to_string(), connection(*sink, country));
    }
    map
}

fn sinks(map: &AgentMap, username: Option<&str>) -> Result<Vec<u64>, SelectError> {
    let list = map.candidates(&username.map(|s| s.to_string()))?;
    let mut sinks: Vec<u64> = list.iter().map(|c| c.connection.sink).collect();
    sinks.sort();
    Ok(sinks)
}

#[test]
fn valid_identifier_is_registered() {
    let mut map = AgentMap::new();
    let r = map.handle_init_request("agent_1".to_string(), connection(1, "JP"));
    assert_eq!(
        r,
        Registration::Accepted {
            response: Payload::InitResponse {
                success: true,
                message: None
            },
            replaced: None,
        }
    );
    assert_eq!(sinks(&map, Some("agent_1")), Ok(vec![1]));
}

#[test]
fn invalid_identifier_is_rejected() {
    let mut map = AgentMap::new();
    let r = map.handle_init_request("robot_1".to_string(), connection(1, "JP"));
    assert_eq!(
        r,
        Registration::Rejected {
            response: Payload::InitResponse {
                success: false,
                message: Some("Agent ID must start with 'agent_'".to_string())
            },
            error: "Invalid agent ID format: robot_1".to_string(),
        }
    );
    assert_eq!(sinks(&map, None), Err(SelectError::NoAgents));
}

#[test]
fn second_connection_replaces_the_first() {
    let mut map = pool(&[("agent_1", 1, "JP")]);
    match map.handle_init_request("agent_1".to_string(), connection(2, "US")) {
        Registration::Accepted { replaced, .. } => {
            assert_eq!(replaced, Some(connection(1, "JP")))
        }
        other => panic!("{:?}", other),
    }
    assert_eq!(sinks(&map, None), Ok(vec![2]));
}

#[test]
fn removed_agent_is_gone() {
    let mut map = pool(&[("agent_1", 1, "JP"), ("agent_2", 2, "US")]);
    assert_eq!(map.remove("agent_1"), Some(connection(1, "JP")));
    assert_eq!(map.remove("agent_1"), None);
    assert_eq!(sinks(&map, None), Ok(vec![2]));
    assert_eq!(sinks(&map, Some("agent_1")), Err(SelectError::AgentNotFound));
}

#[test]
fn all_and_no_username_admit_every_agent() {
    let map = pool(&[("agent_1", 1, "JP"), ("agent_2", 2, "US"), ("agent_3", 3, "JP")]);
    assert_eq!(sinks(&map, None), Ok(vec![1, 2, 3]));
    assert_eq!(sinks(&map, Some("all")), Ok(vec![1, 2, 3]));
}

#[test]
fn countries_are_filtered() {
    let map = pool(&[("agent_1", 1, "JP"), ("agent_2", 2, "US"), ("agent_3", 3, "FR")]);
    assert_eq!(sinks(&map, Some("country_JP")), Ok(vec![1]));
    assert_eq!(sinks(&map, Some("country_JPUS")), Ok(vec![1, 2]));
    assert_eq!(sinks(&map, Some("country_USX")), Ok(vec![2]));
    assert_eq!(
        sinks(&map, Some("country_DE")),
        Err(SelectError::NoAgentsInCountries)
    );
    assert_eq!(
        sinks(&map, Some("country_J")),
        Err(SelectError::InvalidCountryFormat)
    );
}

#[test]
fn each_selection_error_comes_up() {
    let map = pool(&[]);
    assert_eq!(sinks(&map, Some("agent_x")), Err(SelectError::AgentNotFound));
    assert_eq!(sinks(&map, Some("all")), Err(SelectError::NoAgents));
    assert_eq!(
        sinks(&map, Some("country_")),
        Err(SelectError::InvalidCountryFormat)
    );
    assert_eq!(
        sinks(&map, Some("country_JP")),
        Err(SelectError::NoAgentsInCountries)
    );
    assert_eq!(sinks(&map, Some("bob")), Err(SelectError::InvalidUsername));
    assert_eq!(sinks(&map, Some("")), Err(SelectError::InvalidUsername));
}

#[test]
fn random_choice_stays_among_the_candidates() {
    let map = pool(&[("agent_1", 1, "JP"), ("agent_2", 2, "US"), ("agent_3", 3, "JP")]);
    let mut seen = [false; 4];
    for _ in 0..200 {
        let c = map.select_agent(&Some("country_JP".to_string())).unwrap();
        seen[c.connection.sink as usize] = true;
        assert_eq!(c.connection.metadata.country_code, "JP");
    }
    assert_eq!(seen, [false, true, false, true]);
    let named = map.select_agent(&Some("agent_2".to_string())).unwrap();
    assert_eq!(named.agent_id, "agent_2");
    assert_eq!(named.connection, connection(2, "US"));
}

#[test]
fn chosen_candidate_is_the_one_at_the_index() {
    let map = pool(&[("agent_1", 1, "JP"), ("agent_2", 2, "US")]);
    let ids: Vec<String> = map
        .candidates(&None)
        .unwrap()
        .into_iter()
        .map(|c| c.agent_id)
        .collect();
    for i in 0..2 {
        let list = map.candidates(&None).unwrap();
        assert_eq!(choose_candidate(list, i).agent_id, ids[i]);
    }
}

#[test]
fn country_codes_are_cut_every_two_characters() {
    assert_eq!(parse_country_codes("country_JPUS"), vec!["JP", "US"]);
    assert_eq!(parse_country_codes("country_JPU"), vec!["JP"]);
    assert_eq!(parse_country_codes("country_"), Vec::<String>::new());
    assert_eq!(parse_country_codes("country_country_JP"), vec!["JP"]);
}

#[test]
fn country_codes_that_are_not_text_are_left_out() {
    assert_eq!(parse_country_codes("country_éJP"), vec!["é", "JP"]);
    assert_eq!(parse_country_codes("country_日J"), Vec::<String>::new());
    assert_eq!(parse_country_codes("country_日JUS"), vec!["US"]);
}

#[test]
fn usernames_are_read_as_selectors() {
    let read = |s: &str| parse_selector(&Some(s.to_string()));
    assert_eq!(parse_selector(&None), Selector::Any);
    assert_eq!(read("all"), Selector::Any);
    assert_eq!(read("agent_9"), Selector::Agent("agent_9".to_string()));
    assert_eq!(read("country_JP"), Selector::Countries(vec!["JP".to_string()]));
    assert_eq!(read("ALL"), Selector::Invalid);
}

#[test]
fn refused_identifier_is_named() {
    assert_eq!(
        invalid_agent_id_message("Agent_1"),
        "Invalid agent ID format: Agent_1"
    );
}
